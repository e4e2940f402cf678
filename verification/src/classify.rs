//! Direction of a flow relative to the monitored network.

use vstd::prelude::*;
use crate::netflow::{FlowRecord, NetflowV4};
use crate::pattern::{regex_found, Pattern};

verus! {

/// Where a flow runs, seen from the monitored network.
#[derive(Clone, Copy, Debug, PartialEq, Eq, Structural)]
pub enum Direction {
    /// From outside to inside.
    ExternalInbound,
    /// From inside to outside.
    ExternalOutbound,
    /// Between two inside addresses.
    InternalBoth,
    /// Between two outside addresses: not counted.
    Unclassified,
}

impl Direction {
    /// The direction of a flow whose source and destination lie inside the
    /// network or not, as given.
    pub open spec fn of(src_inside: bool, dst_inside: bool) -> Direction {
        if !src_inside && dst_inside {
            Direction::ExternalInbound
        } else if src_inside && !dst_inside {
            Direction::ExternalOutbound
        } else if src_inside && dst_inside {
            Direction::InternalBoth
        } else {
            Direction::Unclassified
        }
    }

    /// The number that stands for the direction in a flow type.
    pub open spec fn number(self) -> u8 {
        match self {
            Direction::ExternalInbound => 1,
            Direction::ExternalOutbound => 2,
            Direction::InternalBoth => 3,
            Direction::Unclassified => 4,
        }
    }

    /// The direction that a flow type stands for: every number but 1, 2 and
    /// 3 is unclassified.
    pub open spec fn of_number(flow_type: u8) -> Direction {
        if flow_type == 1 {
            Direction::ExternalInbound
        } else if flow_type == 2 {
            Direction::ExternalOutbound
        } else if flow_type == 3 {
            Direction::InternalBoth
        } else {
            Direction::Unclassified
        }
    }

    /// The number of the direction.
    pub fn code(self) -> (r: u8)
        ensures
            r == self.number(),
            Direction::of_number(r) == self,
    {
        match self {
            Direction::ExternalInbound => 1,
            Direction::ExternalOutbound => 2,
            Direction::InternalBoth => 3,
            Direction::Unclassified => 4,
        }
    }

    /// The direction that a flow type stands for.
    pub fn from_code(flow_type: u8) -> (r: Direction)
        ensures
            r == Direction::of_number(flow_type),
    {
        if flow_type == 1 {
            Direction::ExternalInbound
        } else if flow_type == 2 {
            Direction::ExternalOutbound
        } else if flow_type == 3 {
            Direction::InternalBoth
        } else {
            Direction::Unclassified
        }
    }
}

/// Classifies a flow by the sides its two addresses lie on.
pub fn classify(src_inside: bool, dst_inside: bool) -> (r: Direction)
    ensures
        r == Direction::of(src_inside, dst_inside),
        r == Direction::ExternalInbound <==> !src_inside && dst_inside,
        r == Direction::ExternalOutbound <==> src_inside && !dst_inside,
        r == Direction::InternalBoth <==> src_inside && dst_inside,
        r == Direction::Unclassified <==> !src_inside && !dst_inside,
{
    if !src_inside && dst_inside {
        Direction::ExternalInbound
    } else if src_inside && !dst_inside {
        Direction::ExternalOutbound
    } else if src_inside && dst_inside {
        Direction::InternalBoth
    } else {
        Direction::Unclassified
    }
}

/// The flow type of `flow` where `inside` matches the addresses of the
/// monitored network. The same test is put to source and destination.
pub open spec fn flow_type(flow: FlowRecord, inside: Seq<char>) -> u8 {
    Direction::of(regex_found(inside, flow.src_addr), regex_found(inside, flow.dst_addr)).number()
}

/// Classifies `flow` and gives the number of its direction.
pub fn get_netflow_type(flow: &NetflowV4, inside: &Pattern) -> (r: u8)
    ensures
        r == flow_type(flow@, inside@),
{
    let src_inside = inside.is_match(flow.src4_addr.as_str());
    let dst_inside = inside.is_match(flow.dst4_addr.as_str());
    classify(src_inside, dst_inside).code()
}

} // verus!
