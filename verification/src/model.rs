//! The aggregation cache as a mathematical value.

use vstd::prelude::*;
use crate::counters::{Counters, Role};
use crate::key::KeyModel;
use crate::classify::flow_type;
use crate::netflow::FlowRecord;
use crate::record::{contributions, Contribution, RecordError};

verus! {

/// Mathematical value of an aggregation cache: the keys in the order in
/// which they were first counted, and the counters of each.
pub struct CacheModel {
    pub keys: Seq<KeyModel>,
    pub counts: Map<KeyModel, Counters>,
}

impl CacheModel {
    /// The cache without keys.
    pub open spec fn empty() -> CacheModel {
        CacheModel { keys: Seq::empty(), counts: Map::empty() }
    }

    /// A cache holds each of its keys once, counters for exactly its keys,
    /// and in each counter a number of the signed 64-bit range that is not
    /// negative.
    pub open spec fn wf(self) -> bool {
        &&& self.keys.no_duplicates()
        &&& forall|key: KeyModel| self.counts.contains_key(key) <==> self.keys.contains(key)
        &&& forall|i: int| 0 <= i < self.keys.len() ==> (#[trigger] self.keys[i]).valid()
        &&& forall|key: KeyModel, role: Role|
            self.counts.contains_key(key) ==> 0 <= #[trigger] self.counts[key].get(role)
                <= i64::MAX
    }

    /// The counters of `key`: zero where the cache does not hold the key.
    pub open spec fn counters(self, key: KeyModel) -> Counters {
        if self.counts.contains_key(key) {
            self.counts[key]
        } else {
            Counters::zero()
        }
    }

    /// Whether the counter that `c` adds to stays in the signed 64-bit range.
    pub open spec fn admits(self, c: Contribution) -> bool {
        self.counters(c.key).get(c.role) + c.bytes <= i64::MAX
    }

    /// The cache after `c` has been added: a key that is new to the cache
    /// comes last.
    pub open spec fn record(self, c: Contribution) -> CacheModel {
        CacheModel {
            keys: if self.counts.contains_key(c.key) {
                self.keys
            } else {
                self.keys.push(c.key)
            },
            counts: self.counts.insert(c.key, self.counters(c.key).bump(c.role, c.bytes)),
        }
    }

    /// The cache after the contributions `cs` have been added one after the
    /// other, or `None` where one of them is not admitted.
    pub open spec fn record_all(self, cs: Seq<Contribution>) -> Option<CacheModel>
        decreases cs.len(),
    {
        if cs.len() == 0 {
            Some(self)
        } else {
            match self.record_all(cs.drop_last()) {
                Some(before) if before.admits(cs.last()) => Some(before.record(cs.last())),
                _ => None,
            }
        }
    }

    /// The cache after `flow` has been counted under the given flow type, or
    /// the reason why the flow is refused. A refused flow changes nothing.
    pub open spec fn accumulate(self, flow: FlowRecord, flow_type: u8) -> Result<
        CacheModel,
        RecordError,
    > {
        match contributions(flow, flow_type) {
            Err(e) => Err(e),
            Ok(cs) => match self.record_all(cs) {
                Some(after) => Ok(after),
                None => Err(RecordError::CounterOverflow),
            },
        }
    }

    /// The cache after `flow` has been offered to it: unchanged where the
    /// flow is refused.
    pub open spec fn offer(self, flow: FlowRecord, flow_type: u8) -> CacheModel {
        match self.accumulate(flow, flow_type) {
            Ok(after) => after,
            Err(_) => self,
        }
    }
}

/// The cache that a run of flows builds from nothing, each flow classified
/// with the pattern `inside` and offered in turn.
pub open spec fn aggregate(flows: Seq<FlowRecord>, inside: Seq<char>) -> CacheModel
    decreases flows.len(),
{
    if flows.len() == 0 {
        CacheModel::empty()
    } else {
        aggregate(flows.drop_last(), inside).offer(flows.last(), flow_type(flows.last(), inside))
    }
}

/// Where shard `k` of `shards` starts in a run of `len` flows: the shards
/// follow one another, and the first `len % shards` of them are one flow
/// longer than the others.
pub open spec fn shard_start(len: nat, shards: nat, k: nat) -> nat {
    let base = len / shards;
    let extra = len % shards;
    k * base + if k < extra {
        k
    } else {
        extra
    }
}

/// The flows of shard `k` of `shards`.
pub open spec fn shard<T>(flows: Seq<T>, shards: nat, k: nat) -> Seq<T> {
    flows.subrange(
        shard_start(flows.len(), shards, k) as int,
        shard_start(flows.len(), shards, k + 1) as int,
    )
}

/// The shards start at the first flow, end at the last, and each is as long
/// as the run divided by their number, or one flow longer.
pub proof fn lemma_shard_bounds(len: nat, shards: nat, k: nat)
    requires
        shards > 0,
        k < shards,
    ensures
        shard_start(len, shards, 0) == 0,
        shard_start(len, shards, shards) == len,
        shard_start(len, shards, k) <= shard_start(len, shards, k + 1) <= len,
        len / shards <= shard_start(len, shards, k + 1) - shard_start(len, shards, k) <= len
            / shards + 1,
{
    let base = len / shards;
    let extra = len % shards;
    assert(len == shards * base + extra) by {
        vstd::arithmetic::div_mod::lemma_fundamental_div_mod(len as int, shards as int);
    }
    assert((k + 1) * base == k * base + base) by (nonlinear_arith);
    assert((k + 1) * base <= shards * base) by (nonlinear_arith)
        requires
            k + 1 <= shards,
            base >= 0,
    ;
    assert(0 * base == 0);
}

/// The caches that the shards of a run of flows are aggregated into.
pub open spec fn shard_caches(flows: Seq<FlowRecord>, inside: Seq<char>, shards: nat) -> Seq<
    CacheModel,
> {
    Seq::new(shards, |k: int| aggregate(shard(flows, shards, k as nat), inside))
}

} // verus!
