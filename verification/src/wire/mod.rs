//! Wire-format types of the Bluefin protocol.
//!
//! These types describe the bytes on the wire (header, packet) and the traits
//! that turn them into bytes and back.
use vstd::prelude::*;

use crate::error::{BluefinError, ErrorView};

pub mod big_endian;
pub mod header;
pub mod packet;

verus! {

/// Moves a value out of a slot and leaves the default value behind.
pub trait Extract: Default {
    fn extract(&mut self) -> (taken: Self)
        ensures
            taken == *old(self),
            call_ensures(Self::default, (), *final(self)),
    ;
}

impl<T: Default> Extract for T {
    #[inline]
    fn extract(&mut self) -> (taken: Self) {
        let mut slot = T::default();
        core::mem::swap(self, &mut slot);
        slot
    }
}

/// A type with a fixed representation on the wire.
pub trait Serialisable: Sized {
    /// The bytes that stand for the value.
    spec fn wire_bytes(&self) -> Seq<u8>;

    /// What the value's type makes of the bytes: `value` where they can be read
    /// as one, and the error otherwise.
    spec fn reads_as(bytes: Seq<u8>, outcome: Result<Self, ErrorView>) -> bool;

    fn serialise(&self) -> (bytes: Vec<u8>)
        ensures
            bytes@ == self.wire_bytes(),
    ;

    fn deserialise(bytes: &[u8]) -> (value: Result<Self, BluefinError>)
        ensures
            match value {
                Ok(v) => Self::reads_as(bytes@, Ok(v)),
                Err(e) => Self::reads_as(bytes@, Err(e@)),
            },
    ;
}

} // verus!
