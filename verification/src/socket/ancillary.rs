//! The room for the ancillary data of a message.
use vstd::prelude::*;

use crate::socket::error::{BluefinIoError, BluefinIoResult, IoErrorView};

verus! {

broadcast use vstd::string::group_string_axioms;

/// Keeps count of the ancillary data that were added to a message.
pub struct AncillaryRoom {
    /// How many bytes are in use.
    size: usize,
    /// How many bytes there are.
    total_bytes: usize,
}

/// A value that occupies so many bytes fits.
pub open spec fn room_for(used: nat, total: nat, val_size: nat) -> bool {
    used + val_size <= total
}

/// A value is refused only where it does not fit: values of any sizes fit together
/// exactly where their sum does, and what was used before stays used.
pub proof fn law_room_is_used_up(used: nat, total: nat, first: nat, second: nat)
    ensures
        room_for(used, total, first + second) <==> room_for(used, total, first) && room_for(
            used + first,
            total,
            second,
        ),
        used <= total ==> room_for(used, total, (total - used) as nat) && !room_for(
            used,
            total,
            (total - used + 1) as nat,
        ),
{
}

impl AncillaryRoom {
    pub closed spec fn used(&self) -> nat {
        self.size as nat
    }

    pub closed spec fn total(&self) -> nat {
        self.total_bytes as nat
    }

    /// No more is in use than there is.
    pub open spec fn valid(&self) -> bool {
        self.used() <= self.total()
    }

    pub fn new(total_bytes: usize) -> (room: Self)
        ensures
            room.valid(),
            room.used() == 0,
            room.total() == total_bytes,
    {
        AncillaryRoom { size: 0, total_bytes }
    }

    /// Takes room for a value that occupies `val_size` bytes, alignment and
    /// header included.
    pub fn append(&mut self, val_size: usize) -> (appended: BluefinIoResult<()>)
        requires
            old(self).valid(),
        ensures
            final(self).valid(),
            final(self).total() == old(self).total(),
            appended is Ok <==> room_for(old(self).used(), old(self).total(), val_size as nat),
            match appended {
                Ok(()) => {
                    &&& old(self).used() + val_size <= old(self).total()
                    &&& final(self).used() == old(self).used() + val_size
                },
                Err(e) => {
                    &&& old(self).used() + val_size > old(self).total()
                    &&& final(self).used() == old(self).used()
                    &&& e@ == IoErrorView::InsufficientBufferSize(
                        "Could not add value to ancillary data as data exceeds available free space"@,
                    )
                },
            },
    {
        if val_size > self.total_bytes - self.size {
            return Err(
                BluefinIoError::InsufficientBufferSize(
                    "Could not add value to ancillary data as data exceeds available free space".to_string(),
                ),
            );
        }
        self.size = self.size + val_size;
        Ok(())
    }
}

} // verus!
