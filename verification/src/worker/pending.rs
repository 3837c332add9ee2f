//! The count of the bytes that a flush waits for.
use vstd::prelude::*;

verus! {

/// The bytes that were accepted and are not on the wire yet.
pub struct PendingBytes {
    bytes: usize,
}

impl View for PendingBytes {
    type V = nat;

    closed spec fn view(&self) -> nat {
        self.bytes as nat
    }
}

/// The count after `len` bytes were accepted.
pub open spec fn count_with(pending: int, len: int) -> int {
    pending + len
}

/// The count after `len` of the bytes are on the wire, or were refused.
pub open spec fn count_without(pending: int, len: int) -> int {
    pending - len
}

/// A flush has nothing to wait for.
pub open spec fn flush_is_over(pending: int) -> bool {
    pending == 0
}

impl PendingBytes {
    pub fn new() -> (pending: Self)
        ensures
            pending@ == 0,
    {
        PendingBytes { bytes: 0 }
    }

    /// How many bytes are not on the wire yet.
    pub fn bytes(&self) -> (bytes: usize)
        ensures
            bytes == self@,
    {
        self.bytes
    }

    /// Bytes were accepted, or are about to be.
    pub fn accept(&mut self, len: usize)
        requires
            old(self)@ + len <= usize::MAX,
        ensures
            final(self)@ == old(self)@ + len,
            final(self)@ == count_with(old(self)@ as int, len as int),
    {
        self.bytes = self.bytes + len;
    }

    /// Bytes that were accepted are on the wire, or were refused after all. Says
    /// whether those who wait for a flush are to be woken: nothing is left.
    pub fn done(&mut self, len: usize) -> (drained: bool)
        requires
            len <= old(self)@,
        ensures
            final(self)@ == old(self)@ - len,
            drained == (final(self)@ == 0),
            final(self)@ == count_without(old(self)@ as int, len as int),
            drained == flush_is_over(final(self)@ as int),
    {
        self.bytes = self.bytes - len;
        self.bytes == 0
    }

    /// A flush has nothing to wait for.
    pub fn is_drained(&self) -> (drained: bool)
        ensures
            drained == (self@ == 0),
            drained == flush_is_over(self@ as int),
    {
        self.bytes == 0
    }
}

} // verus!
