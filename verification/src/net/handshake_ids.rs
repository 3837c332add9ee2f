//! What a host draws for itself before a handshake.
use vstd::prelude::*;

use crate::handshake::{random_u32, random_u64};

verus! {

/// Our connection id, and the number of our first packet.
#[derive(Clone, Copy, Debug, PartialEq, Eq, Structural)]
pub struct HandshakeIds {
    pub src_conn_id: u32,
    pub packet_number: u64,
}

impl HandshakeIds {
    /// There are `later` packet numbers after the first one.
    pub open spec fn leaves(self, later: u64) -> bool {
        self.packet_number + later <= u64::MAX
    }

    /// The ids that were drawn, if there is room for the later numbers.
    pub open spec fn drawn(src_conn_id: u32, packet_number: u64, later: u64) -> Option<
        HandshakeIds,
    > {
        if packet_number + later <= u64::MAX {
            Some(HandshakeIds { src_conn_id, packet_number })
        } else {
            None
        }
    }

    /// The ids that were drawn, if there are `later` packet numbers after the
    /// first one.
    pub fn of_draw(src_conn_id: u32, packet_number: u64, later: u64) -> (ids: Option<Self>)
        ensures
            ids == if packet_number + later <= u64::MAX {
                Some(HandshakeIds { src_conn_id, packet_number })
            } else {
                None
            },
            ids == Self::drawn(src_conn_id, packet_number, later),
    {
        if packet_number <= u64::MAX - later {
            Some(HandshakeIds { src_conn_id, packet_number })
        } else {
            None
        }
    }

    /// Draws the ids at random.
    pub fn draw(later: u64) -> (ids: Option<Self>)
        ensures
            match ids {
                Some(ids) => ids.leaves(later),
                None => later > 0,
            },
    {
        Self::of_draw(random_u32(), random_u64(), later)
    }
}

/// What was drawn is used as it is, and is used exactly where all the later numbers
/// can be counted: the last of them, `k` after the first, is a number.
pub proof fn law_draw_is_kept(src_conn_id: u32, packet_number: u64, later: u64, k: u64)
    requires
        k <= later,
    ensures
        HandshakeIds::drawn(src_conn_id, packet_number, later) matches Some(ids)
            ==> ids.src_conn_id == src_conn_id && ids.packet_number == packet_number
            && ids.leaves(later) && ids.leaves(k) && ids.packet_number + k <= u64::MAX,
        HandshakeIds::drawn(src_conn_id, packet_number, later) is None ==> packet_number
            > u64::MAX - later,
        HandshakeIds::drawn(src_conn_id, packet_number, 0) is Some,
{
}

} // verus!
