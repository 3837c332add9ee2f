//! What this crate relies on of `std`'s handle for waking a task.
use core::task::Waker;
use vstd::prelude::*;

verus! {

/// A handle that wakes a task.
#[verifier::external_type_specification]
#[verifier::external_body]
pub struct ExWaker(core::task::Waker);

/// `Waker::clone` gives a handle that wakes the same task.
pub assume_specification[ <Waker as Clone>::clone ](waker: &Waker) -> (copy: Waker)
    ensures
        copy == *waker,
;

/// `Waker::will_wake` says of two handles that they wake the same task only where
/// they do. It is a best-effort check: of two that wake the same task it may still
/// say that they do not.
pub assume_specification[ Waker::will_wake ](waker: &Waker, other: &Waker) -> (will_wake: bool)
    ensures
        will_wake ==> *waker == *other,
;

/// The waker that is kept: the one that is kept already where it wakes the same
/// task, and the new one otherwise.
pub open spec fn kept_waker(kept: Option<Waker>, will_wake: bool, new_waker: Waker) -> Option<
    Waker,
> {
    if kept is Some && will_wake {
        kept
    } else {
        Some(new_waker)
    }
}

/// There is a waker after one was given: the one that was kept where it wakes the same
/// task, and else the new one.
pub proof fn law_a_waker_is_kept(kept: Option<Waker>, will_wake: bool, new_waker: Waker)
    ensures
        kept_waker(kept, will_wake, new_waker) is Some,
        kept is None ==> kept_waker(kept, will_wake, new_waker) == Some(new_waker),
        !will_wake ==> kept_waker(kept, will_wake, new_waker) == Some(new_waker),
        kept is Some && will_wake ==> kept_waker(kept, will_wake, new_waker) == kept,
{
}

} // verus!
