use vstd::prelude::*;

verus! {

/// The endpoint host type.
#[derive(Clone, Copy, Debug, PartialEq, Eq, Structural)]
pub enum BluefinHost {
    PackLeader,
    PackFollower,
    Client,
}

} // verus!
