//! The aggregation cache: byte counters per address and hour, built while a
//! batch of flow records is read.

use std::collections::HashMap;
use vstd::prelude::*;
use crate::classify::get_netflow_type;
use crate::counters::{Counters, FlowCount, Role};
use crate::key::{lemma_packed_injective, AggregationKey, KeyModel};
use crate::model::{
    aggregate, lemma_shard_bounds, shard, shard_caches, shard_start, CacheModel,
};
use crate::netflow::{flows_view, NetflowV4};
use crate::pattern::Pattern;
use crate::record::{
    contributions, credits_of, credits_view, Contribution, Credit, RecordError,
};

verus! {

/// One key of a cache with its counters.
#[derive(Clone, Copy)]
struct Slot {
    key: AggregationKey,
    count: FlowCount,
}

impl Slot {
    /// The number that the slot is indexed under.
    spec fn code(self) -> u128 {
        self.key@.packed() as u128
    }
}

/// Byte counters by aggregation key. The keys keep the order in which they
/// were first counted.
pub struct AggregationCache {
    slots: Vec<Slot>,
    index: HashMap<u128, usize>,
}

/// The number that `key` is indexed under.
spec fn code_of(key: KeyModel) -> u128 {
    key.packed() as u128
}

/// Each slot is found under its key's code, and each code leads to a slot of
/// that code.
spec fn indexed(slots: Seq<Slot>, index: Map<u128, usize>) -> bool {
    &&& forall|i: int|
        0 <= i < slots.len() ==> index.contains_key((#[trigger] slots[i]).code())
            && index[slots[i].code()] == i
    &&& forall|code: u128| #[trigger]
        index.contains_key(code) ==> index[code] < slots.len() && slots[index[code] as int].code()
            == code
    &&& forall|i: int| 0 <= i < slots.len() ==> (#[trigger] slots[i]).key@.valid()
    &&& forall|i: int, role: Role|
        0 <= i < slots.len() ==> 0 <= #[trigger] slots[i].count@.get(role)
}

/// The cache that the slots and their index stand for.
spec fn model_of(slots: Seq<Slot>, index: Map<u128, usize>) -> CacheModel {
    CacheModel {
        keys: slots.map_values(|slot: Slot| slot.key@),
        counts: Map::new(
            |key: KeyModel| key.valid() && index.contains_key(code_of(key)),
            |key: KeyModel| slots[index[code_of(key)] as int].count@,
        ),
    }
}

/// Valid keys have the same code only where they are the same key.
proof fn lemma_code_injective(a: KeyModel, b: KeyModel)
    requires
        a.valid(),
        b.valid(),
        code_of(a) == code_of(b),
    ensures
        a == b,
{
    assert(0 <= a.packed() < 0x1_00_0000_0000_0000_0000) by {
        assert(a.valid());
    }
    assert(0 <= b.packed() < 0x1_00_0000_0000_0000_0000) by {
        assert(b.valid());
    }
    lemma_packed_injective(a, b);
}

/// The model of an indexed run of slots is a well-formed cache.
proof fn lemma_model_wf(slots: Seq<Slot>, index: Map<u128, usize>)
    requires
        indexed(slots, index),
    ensures
        model_of(slots, index).wf(),
{
    let m = model_of(slots, index);
    assert forall|i: int, j: int| 0 <= i < j < m.keys.len() implies m.keys[i] != m.keys[j] by {
        if m.keys[i] == m.keys[j] {
            assert(slots[i].code() == slots[j].code());
        }
    }
    assert forall|key: KeyModel| m.counts.contains_key(key) <==> m.keys.contains(key) by {
        if m.counts.contains_key(key) {
            let i = index[code_of(key)] as int;
            assert(slots[i].code() == code_of(key));
            lemma_code_injective(slots[i].key@, key);
            assert(m.keys[i] == key);
        }
        if m.keys.contains(key) {
            let i = choose|i: int| 0 <= i < m.keys.len() && m.keys[i] == key;
            assert(slots[i].code() == code_of(key));
        }
    }
    assert forall|i: int| 0 <= i < m.keys.len() implies (#[trigger] m.keys[i]).valid() by {
        assert(slots[i].key@.valid());
    }
    assert forall|key: KeyModel, role: Role| m.counts.contains_key(key) implies 0
        <= #[trigger] m.counts[key].get(role) <= i64::MAX by {
        let i = index[code_of(key)] as int;
        slots[i].count.lemma_in_range();
        assert(0 <= slots[i].count@.get(role));
    }
}

impl View for AggregationCache {
    type V = CacheModel;

    closed spec fn view(&self) -> CacheModel {
        model_of(self.slots@, self.index@)
    }
}

impl AggregationCache {
    /// The index leads to every key of the cache, and to nothing else.
    #[verifier::type_invariant]
    pub closed spec fn inv(self) -> bool {
        indexed(self.slots@, self.index@)
    }

    /// The value of every cache is well formed.
    pub proof fn lemma_wf(self)
        requires
            self.inv(),
        ensures
            self@.wf(),
    {
        lemma_model_wf(self.slots@, self.index@);
    }

    /// A cache without keys.
    pub fn new() -> (r: AggregationCache)
        ensures
            r@ == CacheModel::empty(),
    {
        let r = AggregationCache { slots: Vec::new(), index: HashMap::new() };
        assert(r@.keys =~= Seq::empty());
        assert(r@.counts =~= Map::empty());
        r
    }

    /// Number of keys.
    pub fn len(&self) -> (r: usize)
        ensures
            r == self@.keys.len(),
            self@.wf(),
    {
        proof {
            use_type_invariant(self);
            lemma_model_wf(self.slots@, self.index@);
        }
        self.slots.len()
    }

    /// The key at place `i` in the order of first counting, with its
    /// counters.
    pub fn entry(&self, i: usize) -> (r: Option<(AggregationKey, FlowCount)>)
        ensures
            self@.wf(),
            match r {
                Some((key, count)) => i < self@.keys.len() && key@ == self@.keys[i as int]
                    && count@ == self@.counts[key@],
                None => i >= self@.keys.len(),
            },
    {
        proof {
            use_type_invariant(self);
            lemma_model_wf(self.slots@, self.index@);
        }
        if i < self.slots.len() {
            let slot = self.slots[i];
            assert(self.slots@[i as int].code() == code_of(slot.key@));
            Some((slot.key, slot.count))
        } else {
            None
        }
    }

    /// The counters of `key`, where the cache holds it.
    pub fn get(&self, key: &AggregationKey) -> (r: Option<FlowCount>)
        ensures
            self@.wf(),
            match r {
                Some(count) => self@.counts.contains_key(key@) && count@ == self@.counts[key@],
                None => !self@.counts.contains_key(key@),
            },
    {
        proof {
            use_type_invariant(self);
            lemma_model_wf(self.slots@, self.index@);
        }
        let code = key.packed();
        match self.index.get(&code) {
            Some(i) => Some(self.slots[*i].count),
            None => None,
        }
    }

    /// Whether the counter that `credit` adds to would stay in the signed
    /// 64-bit range.
    pub fn admits(&self, credit: &Credit) -> (r: bool)
        ensures
            r == self@.admits(credit@),
    {
        let held = match self.get(&credit.key) {
            Some(count) => count,
            None => FlowCount::default(),
        };
        held.add_bytes(credit.role, credit.bytes).is_some()
    }

    /// Adds `credit` to the cache, unless its counter would leave the signed
    /// 64-bit range: then the cache stays as it is and the answer is `false`.
    pub fn credit(&mut self, credit: &Credit) -> (done: bool)
        ensures
            done == old(self)@.admits(credit@),
            final(self)@ == if done {
                old(self)@.record(credit@)
            } else {
                old(self)@
            },
    {
        proof {
            use_type_invariant(&*self);
        }
        let key = credit.key;
        let code = key.packed();
        let found = match self.index.get(&code) {
            Some(i) => Some(*i),
            None => None,
        };
        let ghost before = *self;
        match found {
            Some(i) => {
                let slot = self.slots[i];
                proof {
                    assert(self.slots@[i as int].code() == code_of(key@));
                    lemma_code_injective(slot.key@, key@);
                    assert(self@.counts.contains_key(key@));
                    assert(self@.counters(key@) == slot.count@);
                }
                match slot.count.add_bytes(credit.role, credit.bytes) {
                    None => false,
                    Some(sum) => {
                        let mut work = AggregationCache::new();
                        std::mem::swap(&mut work, self);
                        let AggregationCache { mut slots, index } = work;
                        slots.set(i, Slot { key: slot.key, count: sum });
                        proof {
                            lemma_set_slot(before.slots@, index@, i as int, sum, credit@);
                        }
                        *self = AggregationCache { slots, index };
                        true
                    },
                }
            },
            None => {
                let zero = FlowCount::default();
                match zero.add_bytes(credit.role, credit.bytes) {
                    None => false,
                    Some(sum) => {
                        let mut work = AggregationCache::new();
                        std::mem::swap(&mut work, self);
                        let AggregationCache { mut slots, mut index } = work;
                        let place = slots.len();
                        slots.push(Slot { key, count: sum });
                        index.insert(code, place);
                        proof {
                            lemma_push_slot(before.slots@, before.index@, key, sum, credit@);
                        }
                        *self = AggregationCache { slots, index };
                        true
                    },
                }
            },
        }
    }
}

/// Replacing the counters of a slot by those with a contribution to its key
/// added gives the cache with the contribution recorded.
proof fn lemma_set_slot(
    slots: Seq<Slot>,
    index: Map<u128, usize>,
    i: int,
    sum: FlowCount,
    c: Contribution,
)
    requires
        indexed(slots, index),
        0 <= i < slots.len(),
        slots[i].key@ == c.key,
        c.bytes >= 0,
        sum@ == slots[i].count@.bump(c.role, c.bytes),
    ensures
        indexed(slots.update(i, Slot { key: slots[i].key, count: sum }), index),
        model_of(slots.update(i, Slot { key: slots[i].key, count: sum }), index) == model_of(
            slots,
            index,
        ).record(c),
{
    let after = slots.update(i, Slot { key: slots[i].key, count: sum });
    let m = model_of(slots, index);
    let n = model_of(after, index);
    assert forall|j: int| 0 <= j < after.len() implies index.contains_key(
        (#[trigger] after[j]).code(),
    ) && index[after[j].code()] == j by {
        assert(after[j].code() == slots[j].code());
    }
    assert forall|code: u128| #[trigger] index.contains_key(code) implies index[code] < after.len()
        && after[index[code] as int].code() == code by {
        assert(after[index[code] as int].code() == slots[index[code] as int].code());
    }
    assert forall|j: int| 0 <= j < after.len() implies (#[trigger] after[j]).key@.valid() by {
        assert(slots[j].key@.valid());
    }
    assert forall|j: int, role: Role| 0 <= j < after.len() implies 0
        <= #[trigger] after[j].count@.get(role) by {
        assert(0 <= slots[j].count@.get(role));
        assert(0 <= slots[i].count@.get(role));
    }
    assert(slots[i].code() == code_of(c.key));
    assert(m.counts.contains_key(c.key));
    assert(n.keys =~= m.record(c).keys);
    assert forall|key: KeyModel| n.counts.contains_key(key) implies #[trigger] n.counts[key]
        == m.record(c).counts[key] by {
        let j = index[code_of(key)] as int;
        if j == i {
            assert(slots[i].code() == code_of(key));
            lemma_code_injective(slots[i].key@, key);
        }
    }
    assert(n.counts =~= m.record(c).counts);
}

/// Appending a slot for a key that the cache does not hold gives the cache
/// with the contribution recorded.
proof fn lemma_push_slot(
    slots: Seq<Slot>,
    index: Map<u128, usize>,
    key: AggregationKey,
    sum: FlowCount,
    c: Contribution,
)
    requires
        indexed(slots, index),
        slots.len() <= usize::MAX,
        key@ == c.key,
        key@.valid(),
        !index.contains_key(code_of(key@)),
        c.bytes >= 0,
        sum@ == Counters::zero().bump(c.role, c.bytes),
    ensures
        indexed(
            slots.push(Slot { key, count: sum }),
            index.insert(code_of(key@), slots.len() as usize),
        ),
        model_of(
            slots.push(Slot { key, count: sum }),
            index.insert(code_of(key@), slots.len() as usize),
        ) == model_of(slots, index).record(c),
{
    let after = slots.push(Slot { key, count: sum });
    let index2 = index.insert(code_of(key@), slots.len() as usize);
    let m = model_of(slots, index);
    let n = model_of(after, index2);
    assert forall|j: int| 0 <= j < after.len() implies index2.contains_key(
        (#[trigger] after[j]).code(),
    ) && index2[after[j].code()] == j by {
        if j < slots.len() {
            assert(after[j] == slots[j]);
            assert(index.contains_key(slots[j].code()));
        }
    }
    assert forall|code: u128| #[trigger] index2.contains_key(code) implies index2[code]
        < after.len() && after[index2[code] as int].code() == code by {
        if code != code_of(key@) {
            assert(index.contains_key(code));
            assert(after[index[code] as int] == slots[index[code] as int]);
        }
    }
    assert forall|j: int| 0 <= j < after.len() implies (#[trigger] after[j]).key@.valid() by {
        if j < slots.len() {
            assert(after[j] == slots[j]);
        }
    }
    assert forall|j: int, role: Role| 0 <= j < after.len() implies 0
        <= #[trigger] after[j].count@.get(role) by {
        if j < slots.len() {
            assert(after[j] == slots[j]);
            assert(0 <= slots[j].count@.get(role));
        }
    }
    assert(!m.counts.contains_key(c.key));
    assert(n.keys =~= m.record(c).keys);
    assert forall|k: KeyModel| n.counts.contains_key(k) implies #[trigger] n.counts[k] == m.record(
        c,
    ).counts[k] by {
        if k != c.key {
            if code_of(k) == code_of(c.key) {
                lemma_code_injective(k, c.key);
            }
            assert(index.contains_key(code_of(k)));
            assert(after[index[code_of(k)] as int] == slots[index[code_of(k)] as int]);
        }
    }
    assert forall|k: KeyModel| n.counts.contains_key(k) <==> m.record(c).counts.contains_key(
        k,
    ) by {
        if k != c.key && code_of(k) == code_of(c.key) && k.valid() {
            lemma_code_injective(k, c.key);
        }
    }
    assert(n.counts =~= m.record(c).counts);
}

/// Recording two contributions to different counters is admitted exactly
/// where each of them is admitted by itself.
proof fn lemma_record_pair(m: CacheModel, cs: Seq<Contribution>)
    requires
        cs.len() == 2,
        cs[0].role != cs[1].role,
    ensures
        m.record(cs[0]).admits(cs[1]) == m.admits(cs[1]),
        m.record_all(cs) == if m.admits(cs[0]) && m.admits(cs[1]) {
            Some(m.record(cs[0]).record(cs[1]))
        } else {
            None
        },
{
    let first = cs.drop_last();
    assert(first.drop_last().len() == 0);
    assert(m.record_all(first.drop_last()) == Some(m));
    assert(first.last() == cs[0]);
    assert(m.record_all(first) == if m.admits(cs[0]) {
        Some(m.record(cs[0]))
    } else {
        None
    });
}

/// Counts `flow` under the given flow type: 1 for an inbound flow, 2 for an
/// outbound one, 3 for an internal one; a flow of any other type is passed
/// over. A flow that is refused leaves the cache as it was.
pub fn cache_data(flow: &NetflowV4, flow_type: u8, cache: &mut AggregationCache) -> (r: Result<
    (),
    RecordError,
>)
    ensures
        match r {
            Ok(_) => old(cache)@.accumulate(flow@, flow_type) == Ok::<CacheModel, RecordError>(
                final(cache)@,
            ),
            Err(e) => old(cache)@.accumulate(flow@, flow_type) == Err::<CacheModel, RecordError>(e)
                && final(cache)@ == old(cache)@,
        },
{
    let credits = match credits_of(flow, flow_type) {
        Ok(credits) => credits,
        Err(e) => {
            return Err(e);
        },
    };
    let ghost cs = credits_view(credits@);
    let ghost before = cache@;
    proof {
        crate::record::lemma_contributions(flow@, flow_type);
        assert(contributions(flow@, flow_type) == Ok::<Seq<Contribution>, RecordError>(cs));
    }
    if credits.len() == 0 {
        assert(before.record_all(cs) == Some(before));
        assert(before.accumulate(flow@, flow_type) == Ok::<CacheModel, RecordError>(before));
        Ok(())
    } else if credits.len() == 1 {
        proof {
            assert(cs.drop_last().len() == 0);
            assert(cs.last() == credits@[0]@);
            assert(before.record_all(cs.drop_last()) == Some(before));
        }
        if cache.credit(&credits[0]) {
            assert(before.record_all(cs) == Some(cache@));
            Ok(())
        } else {
            assert(before.record_all(cs) is None);
            Err(RecordError::CounterOverflow)
        }
    } else {
        proof {
            assert(cs[0] == credits@[0]@);
            assert(cs[1] == credits@[1]@);
            lemma_record_pair(before, cs);
        }
        if !cache.admits(&credits[1]) {
            return Err(RecordError::CounterOverflow);
        }
        if !cache.credit(&credits[0]) {
            return Err(RecordError::CounterOverflow);
        }
        let done = cache.credit(&credits[1]);
        assert(done);
        assert(before.record_all(cs) == Some(cache@));
        Ok(())
    }
}

/// Aggregates the flows from `start` up to `end` into a cache of their own.
fn aggregate_range(flows: &Vec<NetflowV4>, start: usize, end: usize, inside: &Pattern) -> (cache:
    AggregationCache)
    requires
        start <= end <= flows.len(),
    ensures
        cache@ == aggregate(flows_view(flows@).subrange(start as int, end as int), inside@),
{
    let mut cache = AggregationCache::new();
    let ghost all = flows_view(flows@);
    let mut i: usize = start;
    proof {
        assert(all.subrange(start as int, start as int).len() == 0);
    }
    while i < end
        invariant
            start <= i <= end <= flows.len(),
            all == flows_view(flows@),
            cache@ == aggregate(all.subrange(start as int, i as int), inside@),
        decreases end - i,
    {
        proof {
            let next = all.subrange(start as int, i + 1);
            assert(next.drop_last() == all.subrange(start as int, i as int));
            assert(next.last() == flows@[i as int]@);
        }
        let flow_type = get_netflow_type(&flows[i], inside);
        let _ = cache_data(&flows[i], flow_type, &mut cache);
        i += 1;
    }
    cache
}

/// Aggregates `flows` into one cache: each flow is classified with `inside`
/// and counted; a flow that is refused is passed over.
pub fn aggregate_flows(flows: &Vec<NetflowV4>, inside: &Pattern) -> (cache: AggregationCache)
    ensures
        cache@ == aggregate(flows_view(flows@), inside@),
{
    proof {
        assert(flows_view(flows@).subrange(0, flows@.len() as int) == flows_view(flows@));
    }
    aggregate_range(flows, 0, flows.len(), inside)
}

/// Where shard `k` of `shards` starts in a run of `len` flows.
pub fn start_of_shard(len: usize, shards: usize, k: usize) -> (start: usize)
    requires
        shards > 0,
        k <= shards,
    ensures
        start == shard_start(len as nat, shards as nat, k as nat),
        start <= len,
{
    let base = len / shards;
    let extra = len % shards;
    proof {
        assert(len == shards * base + extra) by {
            vstd::arithmetic::div_mod::lemma_fundamental_div_mod(len as int, shards as int);
        }
        assert(k * base <= shards * base) by (nonlinear_arith)
            requires
                k <= shards,
                base >= 0,
        ;
    }
    k * base + if k < extra {
        k
    } else {
        extra
    }
}

/// The values of a run of caches.
pub open spec fn caches_view(caches: Seq<AggregationCache>) -> Seq<CacheModel> {
    caches.map_values(|cache: AggregationCache| cache@)
}

/// Splits `flows` into `num_threads` shards that follow one another and
/// differ in length by one flow at most, aggregates each shard into a cache
/// of its own, and appends these caches to `cache` in the order of the
/// shards. The caches are not merged: a key may be held by several of them.
pub fn cache_data_mt(
    num_threads: usize,
    flows: Vec<NetflowV4>,
    inside: &Pattern,
    cache: &mut Vec<AggregationCache>,
)
    requires
        num_threads > 0,
    ensures
        caches_view(final(cache)@) == caches_view(old(cache)@) + shard_caches(
            flows_view(flows@),
            inside@,
            num_threads as nat,
        ),
{
    let ghost all = flows_view(flows@);
    let ghost held = caches_view(cache@);
    let ghost shards = shard_caches(all, inside@, num_threads as nat);
    let mut k: usize = 0;
    proof {
        assert(caches_view(cache@) =~= held + shards.take(0));
    }
    while k < num_threads
        invariant
            k <= num_threads,
            all == flows_view(flows@),
            shards == shard_caches(all, inside@, num_threads as nat),
            caches_view(cache@) == held + shards.take(k as int),
        decreases num_threads - k,
    {
        proof {
            lemma_shard_bounds(flows@.len(), num_threads as nat, k as nat);
        }
        let start = start_of_shard(flows.len(), num_threads, k);
        let end = start_of_shard(flows.len(), num_threads, k + 1);
        let part = aggregate_range(&flows, start, end, inside);
        proof {
            assert(part@ == shards[k as int]);
            assert(shards.take(k + 1) == shards.take(k as int).push(shards[k as int]));
        }
        let ghost views = caches_view(cache@);
        cache.push(part);
        proof {
            assert(caches_view(cache@) =~= views.push(part@));
        }
        k += 1;
    }
    proof {
        assert(shards.take(k as int) == shards);
    }
}

} // verus!
