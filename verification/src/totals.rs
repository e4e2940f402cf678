//! Counters as sums: what a cache holds after a run of flows is, for every
//! key and role, the sum of the bytes contributed to it, in whatever order
//! and grouping the flows were counted.

use vstd::prelude::*;
use vstd::seq_lib::{commutative_foldl, lemma_fold_left_permutation};
use crate::classify::flow_type;
use crate::counters::{lemma_counters_equal, Counters, Role};
use crate::key::KeyModel;
use crate::model::{aggregate, CacheModel};
use crate::netflow::{flows_view, FlowRecord, NetflowV4};
use crate::record::{contributions, lemma_contributions, Contribution};

verus! {

/// What `c` adds to the counter `role` of `key`.
pub open spec fn amount(c: Contribution, key: KeyModel, role: Role) -> int {
    if c.key == key && c.role == role {
        c.bytes
    } else {
        0
    }
}

/// The sum of what the contributions `cs` add to the counter `role` of
/// `key`.
pub open spec fn total(cs: Seq<Contribution>, key: KeyModel, role: Role) -> int {
    cs.fold_left(0, |sum: int, c: Contribution| sum + amount(c, key, role))
}

/// Whether one of `cs` is to `key`.
pub open spec fn touches(cs: Seq<Contribution>, key: KeyModel) -> bool {
    exists|i: int| 0 <= i < cs.len() && (#[trigger] cs[i]).key == key
}

/// Contributions of valid keys and of byte counts that are not negative.
pub open spec fn sound(cs: Seq<Contribution>) -> bool {
    forall|i: int| 0 <= i < cs.len() ==> (#[trigger] cs[i]).key.valid() && cs[i].bytes >= 0
}

/// Whether every sum of `cs` stays in the signed 64-bit range.
pub open spec fn fits(cs: Seq<Contribution>) -> bool {
    forall|key: KeyModel, role: Role| #[trigger] total(cs, key, role) <= i64::MAX
}

/// The sum of one more contribution.
pub proof fn lemma_total_push(cs: Seq<Contribution>, c: Contribution, key: KeyModel, role: Role)
    ensures
        total(cs.push(c), key, role) == total(cs, key, role) + amount(c, key, role),
{
    assert(cs.push(c).drop_last() == cs);
}

/// The sum of two runs of contributions is the sum of their sums, however
/// the contributions are grouped into runs.
pub proof fn lemma_total_concat(
    a: Seq<Contribution>,
    b: Seq<Contribution>,
    key: KeyModel,
    role: Role,
)
    ensures
        total(a + b, key, role) == total(a, key, role) + total(b, key, role),
    decreases b.len(),
{
    if b.len() == 0 {
        assert(a + b == a);
    } else {
        assert((a + b).drop_last() == a + b.drop_last());
        lemma_total_concat(a, b.drop_last(), key, role);
    }
}

/// The sum does not depend on the order of the contributions.
pub proof fn lemma_total_any_order(
    a: Seq<Contribution>,
    b: Seq<Contribution>,
    key: KeyModel,
    role: Role,
)
    requires
        a.to_multiset() == b.to_multiset(),
    ensures
        total(a, key, role) == total(b, key, role),
{
    let f = |sum: int, c: Contribution| sum + amount(c, key, role);
    assert(commutative_foldl(f));
    lemma_fold_left_permutation(a, b, f, 0);
}

/// A sum of contributions that are not negative is not negative, and no
/// less than the sum of a part of them.
pub proof fn lemma_total_grows(
    a: Seq<Contribution>,
    b: Seq<Contribution>,
    key: KeyModel,
    role: Role,
)
    requires
        sound(a),
        sound(b),
    ensures
        0 <= total(a, key, role) <= total(a + b, key, role),
        0 <= total(b, key, role) <= total(a + b, key, role),
{
    lemma_total_not_negative(a, key, role);
    lemma_total_not_negative(b, key, role);
    lemma_total_concat(a, b, key, role);
}

/// A sum of contributions that are not negative is not negative.
proof fn lemma_total_not_negative(cs: Seq<Contribution>, key: KeyModel, role: Role)
    requires
        sound(cs),
    ensures
        0 <= total(cs, key, role),
    decreases cs.len(),
{
    if cs.len() > 0 {
        assert(cs.last() == cs[cs.len() - 1]);
        lemma_total_not_negative(cs.drop_last(), key, role);
    }
}

/// Whether a cache holds, for each key that `base` or one of `cs` touches,
/// what `base` held with the sums of `cs` added, and holds no other key.
pub open spec fn extends(after: CacheModel, base: CacheModel, cs: Seq<Contribution>) -> bool {
    &&& after.wf()
    &&& forall|key: KeyModel|
        after.counts.contains_key(key) <==> base.counts.contains_key(key) || touches(cs, key)
    &&& forall|key: KeyModel, role: Role|
        #![trigger after.counters(key).get(role)]
        after.counters(key).get(role) == base.counters(key).get(role) + total(cs, key, role)
}

/// Recording one admitted contribution adds its bytes to its counter and
/// leaves every other counter as it was.
pub proof fn lemma_record_one(m: CacheModel, c: Contribution)
    requires
        m.wf(),
        c.key.valid(),
        c.bytes >= 0,
        m.admits(c),
    ensures
        extends(m.record(c), m, seq![c]),
{
    let after = m.record(c);
    let cs = seq![c];
    assert(cs.drop_last() == Seq::<Contribution>::empty());
    assert(cs.last() == c);
    assert forall|i: int, j: int| 0 <= i < j < after.keys.len() implies after.keys[i]
        != after.keys[j] by {
        if !m.counts.contains_key(c.key) && j == m.keys.len() {
            assert(m.keys[i] == after.keys[i]);
            assert(m.keys.contains(after.keys[i]));
        }
    }
    assert forall|key: KeyModel| after.counts.contains_key(key) <==> after.keys.contains(key) by {
        if m.counts.contains_key(c.key) {
            assert(m.keys.contains(c.key));
        } else {
            assert(after.keys[m.keys.len() as int] == c.key);
            if m.keys.contains(key) {
                let i = choose|i: int| 0 <= i < m.keys.len() && m.keys[i] == key;
                assert(after.keys[i] == key);
            }
            if after.keys.contains(key) && key != c.key {
                let i = choose|i: int| 0 <= i < after.keys.len() && after.keys[i] == key;
                assert(m.keys[i] == key);
            }
        }
    }
    assert forall|i: int| 0 <= i < after.keys.len() implies (#[trigger] after.keys[i]).valid() by {
        if i < m.keys.len() {
            assert(after.keys[i] == m.keys[i]);
        }
    }
    assert forall|key: KeyModel, role: Role| after.counts.contains_key(key) implies 0
        <= #[trigger] after.counts[key].get(role) <= i64::MAX by {
        if m.counts.contains_key(key) {
            assert(0 <= m.counts[key].get(role) <= i64::MAX);
        }
    }
    assert forall|key: KeyModel|
        after.counts.contains_key(key) <==> m.counts.contains_key(key) || touches(cs, key) by {
        if key == c.key {
            assert(cs[0].key == key);
        }
    }
    assert forall|key: KeyModel, role: Role|
        #![trigger after.counters(key).get(role)]
        after.counters(key).get(role) == m.counters(key).get(role) + total(cs, key, role) by {
        lemma_total_push(Seq::empty(), c, key, role);
        assert(Seq::<Contribution>::empty().push(c) == cs);
        assert(total(Seq::<Contribution>::empty(), key, role) == 0);
    }
}

/// Extending a cache twice is extending it by both runs of contributions.
pub proof fn lemma_extends_twice(
    base: CacheModel,
    middle: CacheModel,
    after: CacheModel,
    a: Seq<Contribution>,
    b: Seq<Contribution>,
)
    requires
        extends(middle, base, a),
        extends(after, middle, b),
    ensures
        extends(after, base, a + b),
{
    assert forall|key: KeyModel|
        after.counts.contains_key(key) <==> base.counts.contains_key(key) || touches(
            a + b,
            key,
        ) by {
        if touches(a, key) {
            let i = choose|i: int| 0 <= i < a.len() && (#[trigger] a[i]).key == key;
            assert((a + b)[i].key == key);
        }
        if touches(b, key) {
            let i = choose|i: int| 0 <= i < b.len() && (#[trigger] b[i]).key == key;
            assert((a + b)[a.len() + i].key == key);
        }
        if touches(a + b, key) {
            let i = choose|i: int| 0 <= i < (a + b).len() && (#[trigger] (a + b)[i]).key == key;
            if i < a.len() {
                assert(a[i].key == key);
            } else {
                assert(b[i - a.len()].key == key);
            }
        }
    }
    assert forall|key: KeyModel, role: Role|
        #![trigger after.counters(key).get(role)]
        after.counters(key).get(role) == base.counters(key).get(role) + total(
            a + b,
            key,
            role,
        ) by {
        lemma_total_concat(a, b, key, role);
        assert(middle.counters(key).get(role) == base.counters(key).get(role) + total(
            a,
            key,
            role,
        ));
    }
}

/// Where the sums of `cs` on top of what `m` holds stay in range, all of
/// `cs` are recorded, and the cache then holds those sums on top.
pub proof fn lemma_record_all(m: CacheModel, cs: Seq<Contribution>)
    requires
        m.wf(),
        sound(cs),
        forall|key: KeyModel, role: Role|
            m.counters(key).get(role) + #[trigger] total(cs, key, role) <= i64::MAX,
    ensures
        m.record_all(cs) is Some,
        extends(m.record_all(cs)->0, m, cs),
    decreases cs.len(),
{
    if cs.len() == 0 {
        assert forall|key: KeyModel, role: Role|
            #![trigger m.counters(key).get(role)]
            m.counters(key).get(role) == m.counters(key).get(role) + total(cs, key, role) by {}
    } else {
        let init = cs.drop_last();
        let c = cs.last();
        assert(cs == init.push(c));
        assert(c == cs[cs.len() - 1]);
        assert(sound(init)) by {
            assert forall|i: int| 0 <= i < init.len() implies (#[trigger] init[i]).key.valid()
                && init[i].bytes >= 0 by {
                assert(init[i] == cs[i]);
            }
        }
        assert forall|key: KeyModel, role: Role|
            m.counters(key).get(role) + #[trigger] total(init, key, role) <= i64::MAX by {
            lemma_total_push(init, c, key, role);
            assert(total(cs, key, role) <= i64::MAX - m.counters(key).get(role));
        }
        lemma_record_all(m, init);
        let before = m.record_all(init)->0;
        assert(before.admits(c)) by {
            lemma_total_push(init, c, c.key, c.role);
            assert(m.counters(c.key).get(c.role) + total(cs, c.key, c.role) <= i64::MAX);
            assert(before.counters(c.key).get(c.role) == m.counters(c.key).get(c.role) + total(
                init,
                c.key,
                c.role,
            ));
        }
        lemma_record_one(before, c);
        lemma_extends_twice(m, before, before.record(c), init, seq![c]);
        assert(init + seq![c] == cs);
    }
}

/// What `flow` adds to the counters once it is classified with `inside`:
/// nothing where the flow is refused for what it holds.
pub open spec fn counted_of(flow: FlowRecord, inside: Seq<char>) -> Seq<Contribution> {
    match contributions(flow, flow_type(flow, inside)) {
        Ok(cs) => cs,
        Err(_) => Seq::empty(),
    }
}

/// What a run of flows adds to the counters, flow after flow.
pub open spec fn counted(flows: Seq<FlowRecord>, inside: Seq<char>) -> Seq<Contribution>
    decreases flows.len(),
{
    if flows.len() == 0 {
        Seq::empty()
    } else {
        counted(flows.drop_last(), inside) + counted_of(flows.last(), inside)
    }
}

/// Flows whose byte counts are not negative, as those of every decoded flow
/// are.
pub open spec fn genuine(flows: Seq<FlowRecord>) -> bool {
    forall|i: int| 0 <= i < flows.len() ==> (#[trigger] flows[i]).in_bytes >= 0
}

/// Decoded flows are genuine.
pub proof fn lemma_decoded_genuine(flows: Seq<NetflowV4>)
    ensures
        genuine(flows_view(flows)),
{
}

/// What two runs of flows add is what the first adds, then what the second
/// adds.
pub proof fn lemma_counted_concat(a: Seq<FlowRecord>, b: Seq<FlowRecord>, inside: Seq<char>)
    ensures
        counted(a + b, inside) == counted(a, inside) + counted(b, inside),
    decreases b.len(),
{
    if b.len() == 0 {
        assert(a + b == a);
        assert(counted(a, inside) + counted(b, inside) == counted(a, inside));
    } else {
        assert((a + b).drop_last() == a + b.drop_last());
        assert((a + b).last() == b.last());
        lemma_counted_concat(a, b.drop_last(), inside);
        assert((counted(a, inside) + counted(b.drop_last(), inside)) + counted_of(
            b.last(),
            inside,
        ) == counted(a, inside) + (counted(b.drop_last(), inside) + counted_of(b.last(), inside)));
    }
}

/// What genuine flows add is sound.
pub proof fn lemma_counted_sound(flows: Seq<FlowRecord>, inside: Seq<char>)
    requires
        genuine(flows),
    ensures
        sound(counted(flows, inside)),
    decreases flows.len(),
{
    if flows.len() > 0 {
        let init = flows.drop_last();
        let last = flows.last();
        assert(last == flows[flows.len() - 1]);
        assert forall|i: int| 0 <= i < init.len() implies (#[trigger] init[i]).in_bytes >= 0 by {
            assert(init[i] == flows[i]);
        }
        lemma_counted_sound(init, inside);
        let head = counted(init, inside);
        let tail = counted_of(last, inside);
        if contributions(last, flow_type(last, inside)) is Ok {
            lemma_contributions(last, flow_type(last, inside));
        }
        let all = head + tail;
        assert forall|i: int| 0 <= i < all.len() implies (#[trigger] all[i]).key.valid()
            && all[i].bytes >= 0 by {
            if i < head.len() {
                assert(all[i] == head[i]);
            } else {
                assert(all[i] == tail[i - head.len()]);
            }
        }
    }
}

/// Where the sums of what a run of flows adds stay in range, the cache
/// aggregated from the flows holds exactly the keys that the flows add to,
/// and in each counter the sum of what they add to it.
pub proof fn lemma_aggregate_totals(flows: Seq<FlowRecord>, inside: Seq<char>)
    requires
        genuine(flows),
        fits(counted(flows, inside)),
    ensures
        extends(aggregate(flows, inside), CacheModel::empty(), counted(flows, inside)),
    decreases flows.len(),
{
    let nothing = CacheModel::empty();
    if flows.len() == 0 {
        assert(nothing.wf());
        assert forall|key: KeyModel, role: Role|
            #![trigger nothing.counters(key).get(role)]
            nothing.counters(key).get(role) == nothing.counters(key).get(role) + total(
                Seq::empty(),
                key,
                role,
            ) by {}
    } else {
        let init = flows.drop_last();
        let last = flows.last();
        assert(last == flows[flows.len() - 1]);
        assert(genuine(init)) by {
            assert forall|i: int| 0 <= i < init.len() implies (#[trigger] init[i]).in_bytes
                >= 0 by {
                assert(init[i] == flows[i]);
            }
        }
        let head = counted(init, inside);
        let tail = counted_of(last, inside);
        lemma_counted_sound(flows, inside);
        lemma_counted_sound(init, inside);
        assert(sound(tail)) by {
            if contributions(last, flow_type(last, inside)) is Ok {
                lemma_contributions(last, flow_type(last, inside));
            }
        }
        assert(fits(head)) by {
            assert forall|key: KeyModel, role: Role| #[trigger]
                total(head, key, role) <= i64::MAX by {
                lemma_total_grows(head, tail, key, role);
                assert(total(head + tail, key, role) <= i64::MAX);
            }
        }
        lemma_aggregate_totals(init, inside);
        let before = aggregate(init, inside);
        assert forall|key: KeyModel, role: Role|
            before.counters(key).get(role) + #[trigger] total(tail, key, role) <= i64::MAX by {
            lemma_total_concat(head, tail, key, role);
            assert(total(head + tail, key, role) <= i64::MAX);
            assert(before.counters(key).get(role) == nothing.counters(key).get(role) + total(
                head,
                key,
                role,
            ));
        }
        lemma_record_all(before, tail);
        if contributions(last, flow_type(last, inside)) is Ok {
            assert(before.offer(last, flow_type(last, inside)) == before.record_all(tail)->0);
        } else {
            assert(before.record_all(tail) == Some(before));
        }
        lemma_extends_twice(nothing, before, before.record_all(tail)->0, head, tail);
    }
}

/// The counter of every key and role in an aggregated cache is the sum of
/// the bytes that the flows add to it, provided that no such sum leaves the
/// signed 64-bit range; and the cache holds a key exactly where a flow adds
/// to it.
pub proof fn lemma_counters_are_sums(
    flows: Seq<FlowRecord>,
    inside: Seq<char>,
    key: KeyModel,
    role: Role,
)
    requires
        genuine(flows),
        fits(counted(flows, inside)),
    ensures
        aggregate(flows, inside).counters(key).get(role) == total(
            counted(flows, inside),
            key,
            role,
        ),
        aggregate(flows, inside).counts.contains_key(key) <==> touches(
            counted(flows, inside),
            key,
        ),
        aggregate(flows, inside).wf(),
{
    lemma_aggregate_totals(flows, inside);
    let cache = aggregate(flows, inside);
    assert(cache.counters(key).get(role) == CacheModel::empty().counters(key).get(role) + total(
        counted(flows, inside),
        key,
        role,
    ));
}

/// The sum of what a run of flows adds to one counter is the sum, over the
/// flows, of what each flow adds to it.
proof fn lemma_total_by_flow(flows: Seq<FlowRecord>, inside: Seq<char>, key: KeyModel, role: Role)
    ensures
        total(counted(flows, inside), key, role) == flows.fold_left(
            0,
            |sum: int, flow: FlowRecord| sum + total(counted_of(flow, inside), key, role),
        ),
    decreases flows.len(),
{
    if flows.len() > 0 {
        lemma_total_by_flow(flows.drop_last(), inside, key, role);
        lemma_total_concat(
            counted(flows.drop_last(), inside),
            counted_of(flows.last(), inside),
            key,
            role,
        );
    }
}

/// A run of flows adds to `key` exactly where one of its flows does.
proof fn lemma_touches_by_flow(flows: Seq<FlowRecord>, inside: Seq<char>, key: KeyModel)
    ensures
        touches(counted(flows, inside), key) <==> exists|i: int|
            0 <= i < flows.len() && touches(counted_of(#[trigger] flows[i], inside), key),
    decreases flows.len(),
{
    if flows.len() > 0 {
        let init = flows.drop_last();
        let last = flows.last();
        let head = counted(init, inside);
        let tail = counted_of(last, inside);
        lemma_touches_by_flow(init, inside, key);
        if touches(head + tail, key) {
            let i = choose|i: int|
                0 <= i < (head + tail).len() && (#[trigger] (head + tail)[i]).key == key;
            if i < head.len() {
                assert(head[i].key == key);
                let j = choose|j: int|
                    0 <= j < init.len() && touches(counted_of(#[trigger] init[j], inside), key);
                assert(flows[j] == init[j]);
            } else {
                assert(tail[i - head.len()].key == key);
                assert(flows[flows.len() - 1] == last);
            }
        }
        if exists|i: int|
            0 <= i < flows.len() && touches(counted_of(#[trigger] flows[i], inside), key) {
            let i = choose|i: int|
                0 <= i < flows.len() && touches(counted_of(#[trigger] flows[i], inside), key);
            if i < init.len() {
                assert(init[i] == flows[i]);
                let j = choose|j: int| 0 <= j < head.len() && (#[trigger] head[j]).key == key;
                assert((head + tail)[j].key == key);
            } else {
                let j = choose|j: int| 0 <= j < tail.len() && (#[trigger] tail[j]).key == key;
                assert((head + tail)[head.len() + j].key == key);
            }
        }
    }
}

/// The counters that a run of flows is aggregated into do not depend on the
/// order of the flows, provided that no sum of the run leaves the signed
/// 64-bit range. (The order of the keys in the cache does depend on it.)
pub proof fn lemma_aggregate_any_order(a: Seq<FlowRecord>, b: Seq<FlowRecord>, inside: Seq<char>)
    requires
        a.to_multiset() == b.to_multiset(),
        genuine(a),
        fits(counted(a, inside)),
    ensures
        aggregate(a, inside).counts == aggregate(b, inside).counts,
{
    broadcast use vstd::seq_lib::group_to_multiset_ensures;

    assert forall|i: int| 0 <= i < b.len() implies (#[trigger] b[i]).in_bytes >= 0 by {
        assert(b.contains(b[i]));
        assert(a.to_multiset().count(b[i]) > 0);
        assert(a.contains(b[i]));
    }
    assert forall|key: KeyModel, role: Role|
        total(counted(a, inside), key, role) == #[trigger] total(counted(b, inside), key, role) by {
        let f = |sum: int, flow: FlowRecord| sum + total(counted_of(flow, inside), key, role);
        assert(commutative_foldl(f));
        lemma_fold_left_permutation(a, b, f, 0);
        lemma_total_by_flow(a, inside, key, role);
        lemma_total_by_flow(b, inside, key, role);
    }
    assert(fits(counted(b, inside)));
    lemma_aggregate_totals(a, inside);
    lemma_aggregate_totals(b, inside);
    let first = aggregate(a, inside);
    let second = aggregate(b, inside);
    let nothing = CacheModel::empty();
    assert forall|key: KeyModel|
        first.counts.contains_key(key) <==> second.counts.contains_key(key) by {
        lemma_touches_by_flow(a, inside, key);
        lemma_touches_by_flow(b, inside, key);
        if touches(counted(a, inside), key) {
            let i = choose|i: int|
                0 <= i < a.len() && touches(counted_of(#[trigger] a[i], inside), key);
            assert(a.contains(a[i]));
            assert(b.to_multiset().count(a[i]) > 0);
            assert(b.contains(a[i]));
            let j = choose|j: int| 0 <= j < b.len() && b[j] == a[i];
            assert(touches(counted_of(b[j], inside), key));
        }
        if touches(counted(b, inside), key) {
            let i = choose|i: int|
                0 <= i < b.len() && touches(counted_of(#[trigger] b[i], inside), key);
            assert(b.contains(b[i]));
            assert(a.to_multiset().count(b[i]) > 0);
            assert(a.contains(b[i]));
            let j = choose|j: int| 0 <= j < a.len() && a[j] == b[i];
            assert(touches(counted_of(a[j], inside), key));
        }
    }
    assert forall|key: KeyModel| first.counts.contains_key(key) implies #[trigger] first.counts[key]
        == second.counts[key] by {
        assert forall|role: Role| first.counts[key].get(role) == second.counts[key].get(role) by {
            assert(first.counters(key).get(role) == nothing.counters(key).get(role) + total(
                counted(a, inside),
                key,
                role,
            ));
            assert(second.counters(key).get(role) == nothing.counters(key).get(role) + total(
                counted(b, inside),
                key,
                role,
            ));
        }
        lemma_counters_equal(first.counts[key], second.counts[key]);
    }
    assert(first.counts =~= second.counts);
}

} // verus!
