//! What one flow record adds to the counters, and why a record is refused.

use vstd::prelude::*;
use crate::address::{parse_ipv4, read_ipv4};
use crate::counters::Role;
use crate::date::{Date, Day};
use crate::key::{moment_of, read_moment, AggregationKey, KeyModel};
use crate::netflow::{FlowRecord, NetflowV4};

verus! {

/// Why a flow record is not counted.
#[derive(Clone, Copy, Debug, PartialEq, Eq, Structural)]
pub enum RecordError {
    /// The first-seen timestamp names no day and hour.
    Timestamp,
    /// The byte count is above the signed 64-bit range.
    ByteCount,
    /// An address that the record is counted under is no dotted quad.
    Address,
    /// A counter would leave the signed 64-bit range.
    CounterOverflow,
}

impl RecordError {
    /// The description of the error.
    pub open spec fn text(self) -> Seq<char> {
        match self {
            RecordError::Timestamp => "first-seen timestamp names no day and hour"@,
            RecordError::ByteCount => "byte count above the signed 64-bit range"@,
            RecordError::Address => "address is no dotted quad"@,
            RecordError::CounterOverflow => "counter would leave the signed 64-bit range"@,
        }
    }

    /// A short description of the error.
    pub fn message(&self) -> (r: String)
        ensures
            r@ == self.text(),
    {
        match self {
            RecordError::Timestamp => String::from_str(
                "first-seen timestamp names no day and hour",
            ),
            RecordError::ByteCount => String::from_str("byte count above the signed 64-bit range"),
            RecordError::Address => String::from_str("address is no dotted quad"),
            RecordError::CounterOverflow => String::from_str(
                "counter would leave the signed 64-bit range",
            ),
        }
    }
}

/// A number of bytes to add to one counter of one key.
pub struct Contribution {
    pub key: KeyModel,
    pub role: Role,
    pub bytes: int,
}

/// A contribution in executable form.
#[derive(Clone, Copy, Debug)]
pub struct Credit {
    pub key: AggregationKey,
    pub role: Role,
    pub bytes: u64,
}

impl View for Credit {
    type V = Contribution;

    open spec fn view(&self) -> Contribution {
        Contribution { key: self.key@, role: self.role, bytes: self.bytes as int }
    }
}

/// The values of a run of credits.
pub open spec fn credits_view(credits: Seq<Credit>) -> Seq<Contribution> {
    credits.map_values(|credit: Credit| credit@)
}

/// The contribution of `bytes` bytes to the counter `role` of `address` at
/// the given day and hour.
pub open spec fn contribution(address: u32, day: Day, hour: int, role: Role, bytes: int)
    -> Contribution {
    Contribution { key: KeyModel { address: address as int, date: day, hour }, role, bytes }
}

/// What a flow of the given type, first seen in the hour `hour` of `day`,
/// adds to the counters, or why it is refused.
///
/// An inbound flow (type 1) counts as external-in for its destination, an
/// outbound flow (type 2) as external-out for its source, and an internal
/// flow (type 3) as internal-in for its destination and as internal-out for
/// its source. A flow of any other type adds nothing.
pub open spec fn contributions_at(flow: FlowRecord, flow_type: u8, day: Day, hour: int) -> Result<
    Seq<Contribution>,
    RecordError,
> {
    if flow_type != 1 && flow_type != 2 && flow_type != 3 {
        Ok(Seq::empty())
    } else if hour > 23 {
        Err(RecordError::Timestamp)
    } else if flow.in_bytes > i64::MAX {
        Err(RecordError::ByteCount)
    } else {
        let bytes = flow.in_bytes;
        let src = parse_ipv4(flow.src_addr);
        let dst = parse_ipv4(flow.dst_addr);
        if flow_type == 1 {
            match dst {
                Some(dst) => Ok(seq![contribution(dst, day, hour, Role::ExternalIn, bytes)]),
                None => Err(RecordError::Address),
            }
        } else if flow_type == 2 {
            match src {
                Some(src) => Ok(seq![contribution(src, day, hour, Role::ExternalOut, bytes)]),
                None => Err(RecordError::Address),
            }
        } else {
            match (dst, src) {
                (Some(dst), Some(src)) => Ok(
                    seq![
                        contribution(dst, day, hour, Role::InternalIn, bytes),
                        contribution(src, day, hour, Role::InternalOut, bytes),
                    ],
                ),
                _ => Err(RecordError::Address),
            }
        }
    }
}

/// What a flow of the given type adds to the counters, or why it is refused:
/// its contributions at the day and hour of its first-seen timestamp. A flow
/// of a type other than 1, 2 and 3 adds nothing, whatever it holds.
pub open spec fn contributions(flow: FlowRecord, flow_type: u8) -> Result<
    Seq<Contribution>,
    RecordError,
> {
    if flow_type != 1 && flow_type != 2 && flow_type != 3 {
        Ok(Seq::empty())
    } else {
        match moment_of(flow.first) {
            None => Err(RecordError::Timestamp),
            Some((day, hour)) => contributions_at(flow, flow_type, day, hour),
        }
    }
}

/// Every contribution of a record is of a valid key and of a byte count in
/// the signed 64-bit range, and no two are to the same counter.
pub proof fn lemma_contributions(flow: FlowRecord, flow_type: u8)
    requires
        contributions(flow, flow_type) is Ok,
        flow.in_bytes >= 0,
    ensures
        ({
            let cs = contributions(flow, flow_type)->Ok_0;
            &&& cs.len() <= 2
            &&& forall|i: int|
                0 <= i < cs.len() ==> (#[trigger] cs[i]).key.valid() && 0 <= cs[i].bytes
                    <= i64::MAX
            &&& cs.len() == 2 ==> cs[0].role != cs[1].role
        }),
{
    if flow_type == 1 || flow_type == 2 || flow_type == 3 {
        crate::key::lemma_moment_valid(flow.first);
    }
}

/// Works out what `flow` adds to the counters under the given flow type,
/// once the day and hour of its first-seen timestamp are known.
pub fn credits_at(flow: &NetflowV4, flow_type: u8, date: Date, hour: u8) -> (r: Result<
    Vec<Credit>,
    RecordError,
>)
    ensures
        match r {
            Ok(credits) => contributions_at(flow@, flow_type, date@, hour as int) == Ok::<
                Seq<Contribution>,
                RecordError,
            >(credits_view(credits@)),
            Err(e) => contributions_at(flow@, flow_type, date@, hour as int) == Err::<
                Seq<Contribution>,
                RecordError,
            >(e),
        },
{
    let mut credits: Vec<Credit> = Vec::new();
    if flow_type != 1 && flow_type != 2 && flow_type != 3 {
        assert(credits_view(credits@) =~= Seq::empty());
        return Ok(credits);
    }
    if hour > 23 {
        return Err(RecordError::Timestamp);
    }
    let bytes = flow.in_bytes;
    if bytes > 0x7fff_ffff_ffff_ffff {
        return Err(RecordError::ByteCount);
    }
    if flow_type == 1 || flow_type == 3 {
        let role = if flow_type == 1 {
            Role::ExternalIn
        } else {
            Role::InternalIn
        };
        match read_ipv4(flow.dst4_addr.as_str()) {
            Some(address) => match AggregationKey::new(address, date, hour) {
                Some(key) => credits.push(Credit { key, role, bytes }),
                None => {
                    return Err(RecordError::Timestamp);
                },
            },
            None => {
                return Err(RecordError::Address);
            },
        }
    }
    if flow_type == 2 || flow_type == 3 {
        let role = if flow_type == 2 {
            Role::ExternalOut
        } else {
            Role::InternalOut
        };
        match read_ipv4(flow.src4_addr.as_str()) {
            Some(address) => match AggregationKey::new(address, date, hour) {
                Some(key) => credits.push(Credit { key, role, bytes }),
                None => {
                    return Err(RecordError::Timestamp);
                },
            },
            None => {
                return Err(RecordError::Address);
            },
        }
    }
    assert(credits_view(credits@) =~= contributions_at(flow@, flow_type, date@, hour as int)->Ok_0);
    Ok(credits)
}

/// Works out what `flow` adds to the counters under the given flow type.
pub fn credits_of(flow: &NetflowV4, flow_type: u8) -> (r: Result<Vec<Credit>, RecordError>)
    ensures
        match r {
            Ok(credits) => contributions(flow@, flow_type) == Ok::<
                Seq<Contribution>,
                RecordError,
            >(credits_view(credits@)),
            Err(e) => contributions(flow@, flow_type) == Err::<Seq<Contribution>, RecordError>(e),
        },
{
    if flow_type != 1 && flow_type != 2 && flow_type != 3 {
        let credits: Vec<Credit> = Vec::new();
        assert(credits_view(credits@) =~= Seq::empty());
        return Ok(credits);
    }
    match read_moment(flow.first.as_str()) {
        Some((date, hour)) => credits_at(flow, flow_type, date, hour),
        None => Err(RecordError::Timestamp),
    }
}

} // verus!
