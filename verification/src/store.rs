//! The storage as a mathematical value, and what flushes do to it.
//!
//! A row that is upserted is added, counter by counter, to the row that the
//! storage holds for the same table and key, or stored as it is where the
//! storage holds none.

use vstd::prelude::*;
use crate::counters::{lemma_counters_equal, Counters, Role};
use crate::date::table_name;
use crate::flush::{lemma_report_wf, CommandModel, FlushModel, FlushStatus, Outcome, Phase};
use crate::key::KeyModel;
use crate::model::{
    aggregate, lemma_shard_bounds, shard, shard_caches, shard_start, CacheModel,
};
use crate::netflow::FlowRecord;
use crate::totals::{
    counted, fits, genuine, lemma_aggregate_totals, lemma_counted_concat,
    lemma_counted_sound, lemma_total_concat, lemma_total_grows, total, touches,
};
use crate::upsert::{
    action_of, cache_rows, lemma_plan, lemma_rows_of_actions_concat, plan, row_of,
    rows_of_actions, RowModel,
};

verus! {

/// Where a row is stored: a table and a key.
pub struct Place {
    pub table: Seq<char>,
    pub key: KeyModel,
}

/// The place of the rows of `key`: the table of the key's month.
pub open spec fn home(key: KeyModel) -> Place {
    Place { table: table_name(key.date.year, key.date.month), key }
}

/// The counters stored at `place`: zero where nothing is stored there.
pub open spec fn stored(store: Map<Place, Counters>, place: Place) -> Counters {
    if store.contains_key(place) {
        store[place]
    } else {
        Counters::zero()
    }
}

/// The storage after the merge-add upsert of `row`.
pub open spec fn merge_row(store: Map<Place, Counters>, row: RowModel) -> Map<Place, Counters> {
    let place = Place { table: row.table, key: row.key };
    store.insert(place, stored(store, place).plus(row.counts))
}

/// The storage after the merge-add upsert of `rows`, row after row.
pub open spec fn merge_rows(store: Map<Place, Counters>, rows: Seq<RowModel>) -> Map<
    Place,
    Counters,
>
    decreases rows.len(),
{
    if rows.len() == 0 {
        store
    } else {
        merge_row(merge_rows(store, rows.drop_last()), rows.last())
    }
}

/// The storage after a complete flush of `cache`.
pub open spec fn flushed(store: Map<Place, Counters>, cache: CacheModel) -> Map<Place, Counters> {
    merge_rows(store, cache_rows(cache))
}

/// The storage after complete flushes of `caches`, one after the other.
pub open spec fn flushed_each(store: Map<Place, Counters>, caches: Seq<CacheModel>) -> Map<
    Place,
    Counters,
>
    decreases caches.len(),
{
    if caches.len() == 0 {
        store
    } else {
        flushed(flushed_each(store, caches.drop_last()), caches.last())
    }
}

/// The storage with the counters of `cache` added at the home of each of its
/// keys.
pub open spec fn with_cache(store: Map<Place, Counters>, cache: CacheModel) -> Map<
    Place,
    Counters,
> {
    Map::new(
        |place: Place|
            store.contains_key(place) || (place == home(place.key) && cache.counts.contains_key(
                place.key,
            )),
        |place: Place|
            if place == home(place.key) && cache.counts.contains_key(place.key) {
                stored(store, place).plus(cache.counts[place.key])
            } else {
                store[place]
            },
    )
}

/// The counters of a cache restricted to its first `n` keys.
spec fn first_keys(cache: CacheModel, n: int) -> CacheModel {
    CacheModel {
        keys: cache.keys.take(n),
        counts: cache.counts.restrict(cache.keys.take(n).to_set()),
    }
}

/// Upserting the rows of the first `n` keys of a cache adds the counters of
/// those keys at their homes.
proof fn lemma_merge_first_keys(store: Map<Place, Counters>, cache: CacheModel, n: int)
    requires
        cache.wf(),
        0 <= n <= cache.keys.len(),
    ensures
        merge_rows(store, cache_rows(cache).take(n)) == with_cache(store, first_keys(cache, n)),
    decreases n,
{
    let rows = cache_rows(cache);
    if n == 0 {
        assert(rows.take(0).len() == 0);
        assert(with_cache(store, first_keys(cache, 0)) =~= store);
    } else {
        lemma_merge_first_keys(store, cache, n - 1);
        let key = cache.keys[n - 1];
        let less = first_keys(cache, n - 1);
        let more = first_keys(cache, n);
        assert(rows.take(n).drop_last() == rows.take(n - 1));
        assert(rows.take(n).last() == row_of(key, cache.counts[key]));
        assert(cache.keys.take(n)[n - 1] == key);
        assert(cache.keys.contains(key));
        let head = cache.keys.take(n - 1);
        let longer = cache.keys.take(n);
        assert(!less.counts.contains_key(key)) by {
            if head.contains(key) {
                let i = choose|i: int| 0 <= i < head.len() && head[i] == key;
                assert(cache.keys[i] == cache.keys[n - 1]);
            }
        }
        assert forall|k: KeyModel| more.counts.contains_key(k) <==> less.counts.contains_key(k)
            || k == key by {
            if longer.contains(k) {
                let i = choose|i: int| 0 <= i < longer.len() && longer[i] == k;
                if i < n - 1 {
                    assert(head[i] == k);
                }
                assert(cache.keys[i] == k);
            }
            if head.contains(k) {
                let i = choose|i: int| 0 <= i < head.len() && head[i] == k;
                assert(longer[i] == k);
                assert(cache.keys[i] == k);
            }
        }
        let merged = merge_row(with_cache(store, less), row_of(key, cache.counts[key]));
        assert(merged =~= with_cache(store, more));
    }
}

/// A complete flush of a cache adds, at the home of each key of the cache,
/// the counters of that key to what the storage held there, and changes
/// nothing else.
pub proof fn lemma_flushed(store: Map<Place, Counters>, cache: CacheModel)
    requires
        cache.wf(),
    ensures
        flushed(store, cache) == with_cache(store, cache),
{
    let n = cache.keys.len() as int;
    lemma_merge_first_keys(store, cache, n);
    assert(cache_rows(cache).take(n) == cache_rows(cache));
    assert(cache.keys.take(n) == cache.keys);
    assert(first_keys(cache, n).counts =~= cache.counts);
    assert(with_cache(store, first_keys(cache, n)) =~= with_cache(store, cache));
}

/// Flushing the same cache twice adds every counter of the cache twice:
/// the storage does not recognise rows that it has merged before. Into an
/// empty storage, two flushes store the double of every counter.
pub proof fn lemma_flushed_twice(store: Map<Place, Counters>, cache: CacheModel, key: KeyModel)
    requires
        cache.wf(),
        cache.counts.contains_key(key),
    ensures
        stored(flushed(flushed(store, cache), cache), home(key)) == stored(store, home(key)).plus(
            cache.counts[key],
        ).plus(cache.counts[key]),
        stored(flushed(flushed(Map::empty(), cache), cache), home(key)) == cache.counts[key].plus(
            cache.counts[key],
        ),
{
    let nothing = Map::<Place, Counters>::empty();
    lemma_flushed(store, cache);
    lemma_flushed(flushed(store, cache), cache);
    lemma_flushed(nothing, cache);
    lemma_flushed(flushed(nothing, cache), cache);
}

/// Parts of a run of genuine flows whose sums fit are genuine, and their
/// sums fit.
proof fn lemma_parts_fit(a: Seq<FlowRecord>, b: Seq<FlowRecord>, inside: Seq<char>)
    requires
        genuine(a + b),
        fits(counted(a + b, inside)),
    ensures
        genuine(a),
        genuine(b),
        fits(counted(a, inside)),
        fits(counted(b, inside)),
{
    assert forall|i: int| 0 <= i < a.len() implies (#[trigger] a[i]).in_bytes >= 0 by {
        assert((a + b)[i] == a[i]);
    }
    assert forall|i: int| 0 <= i < b.len() implies (#[trigger] b[i]).in_bytes >= 0 by {
        assert((a + b)[a.len() + i] == b[i]);
    }
    lemma_counted_concat(a, b, inside);
    lemma_counted_sound(a, inside);
    lemma_counted_sound(b, inside);
    let ca = counted(a, inside);
    let cb = counted(b, inside);
    assert forall|key: KeyModel, role: Role| #[trigger] total(ca, key, role) <= i64::MAX by {
        lemma_total_grows(ca, cb, key, role);
        assert(total(ca + cb, key, role) <= i64::MAX);
    }
    assert forall|key: KeyModel, role: Role| #[trigger] total(cb, key, role) <= i64::MAX by {
        lemma_total_grows(ca, cb, key, role);
        assert(total(ca + cb, key, role) <= i64::MAX);
    }
}

/// Flushing the cache of one run of flows and then the cache of another
/// leaves the storage as one flush of the cache of both runs together does.
pub proof fn lemma_flushed_in_parts(
    store: Map<Place, Counters>,
    a: Seq<FlowRecord>,
    b: Seq<FlowRecord>,
    inside: Seq<char>,
)
    requires
        genuine(a + b),
        fits(counted(a + b, inside)),
    ensures
        flushed(flushed(store, aggregate(a, inside)), aggregate(b, inside)) == flushed(
            store,
            aggregate(a + b, inside),
        ),
{
    lemma_parts_fit(a, b, inside);
    lemma_aggregate_totals(a, inside);
    lemma_aggregate_totals(b, inside);
    lemma_aggregate_totals(a + b, inside);
    lemma_counted_concat(a, b, inside);
    let first = aggregate(a, inside);
    let second = aggregate(b, inside);
    let both = aggregate(a + b, inside);
    let nothing = CacheModel::empty();
    let ca = counted(a, inside);
    let cb = counted(b, inside);
    lemma_flushed(store, first);
    lemma_flushed(flushed(store, first), second);
    lemma_flushed(store, both);
    assert forall|key: KeyModel|
        both.counts.contains_key(key) <==> first.counts.contains_key(key)
            || second.counts.contains_key(key) by {
        if touches(ca, key) {
            let i = choose|i: int| 0 <= i < ca.len() && (#[trigger] ca[i]).key == key;
            assert((ca + cb)[i].key == key);
        }
        if touches(cb, key) {
            let i = choose|i: int| 0 <= i < cb.len() && (#[trigger] cb[i]).key == key;
            assert((ca + cb)[ca.len() + i].key == key);
        }
        if touches(ca + cb, key) {
            let i = choose|i: int| 0 <= i < (ca + cb).len() && (#[trigger] (ca + cb)[i]).key == key;
            if i < ca.len() {
                assert(ca[i].key == key);
            } else {
                assert(cb[i - ca.len()].key == key);
            }
        }
    }
    assert forall|key: KeyModel|
        both.counters(key) == #[trigger] first.counters(key).plus(second.counters(key)) by {
        assert forall|role: Role|
            both.counters(key).get(role) == first.counters(key).plus(second.counters(key)).get(
                role,
            ) by {
            lemma_total_concat(ca, cb, key, role);
            assert(both.counters(key).get(role) == nothing.counters(key).get(role) + total(
                ca + cb,
                key,
                role,
            ));
            assert(first.counters(key).get(role) == nothing.counters(key).get(role) + total(
                ca,
                key,
                role,
            ));
            assert(second.counters(key).get(role) == nothing.counters(key).get(role) + total(
                cb,
                key,
                role,
            ));
        }
        lemma_counters_equal(both.counters(key), first.counters(key).plus(second.counters(key)));
    }
    let left = with_cache(with_cache(store, first), second);
    let right = with_cache(store, both);
    assert forall|place: Place| left.contains_key(place) implies #[trigger] left[place]
        == right[place] by {
        let key = place.key;
        assert(both.counters(key) == first.counters(key).plus(second.counters(key)));
        lemma_counters_equal(
            stored(store, place).plus(first.counters(key)).plus(second.counters(key)),
            stored(store, place).plus(first.counters(key).plus(second.counters(key))),
        );
        lemma_counters_equal(stored(store, place).plus(Counters::zero()), stored(store, place));
        lemma_counters_equal(
            stored(store, place).plus(first.counters(key)).plus(Counters::zero()),
            stored(store, place).plus(first.counters(key)),
        );
    }
    assert(left =~= right);
}

/// Flushing the caches of the first `k` shards leaves the storage as one
/// flush of the cache of the flows of those shards does.
proof fn lemma_sharded_prefix(
    store: Map<Place, Counters>,
    flows: Seq<FlowRecord>,
    inside: Seq<char>,
    shards: nat,
    k: nat,
)
    requires
        shards > 0,
        k <= shards,
        genuine(flows),
        fits(counted(flows, inside)),
    ensures
        shard_start(flows.len(), shards, k) <= flows.len(),
        flushed_each(store, shard_caches(flows, inside, shards).take(k as int)) == flushed(
            store,
            aggregate(flows.take(shard_start(flows.len(), shards, k) as int), inside),
        ),
    decreases k,
{
    let caches = shard_caches(flows, inside, shards);
    if k == 0 {
        lemma_shard_bounds(flows.len(), shards, 0);
        assert(caches.take(0).len() == 0);
        assert(flows.take(0).len() == 0);
        assert(cache_rows(CacheModel::empty()).len() == 0);
    } else {
        let j = (k - 1) as nat;
        lemma_shard_bounds(flows.len(), shards, j);
        lemma_sharded_prefix(store, flows, inside, shards, j);
        let from = shard_start(flows.len(), shards, j) as int;
        let to = shard_start(flows.len(), shards, k) as int;
        let head = flows.take(from);
        let part = shard(flows, shards, j);
        assert(head + part == flows.take(to));
        assert(flows.take(to) + flows.skip(to) == flows);
        lemma_parts_fit(flows.take(to), flows.skip(to), inside);
        assert(caches.take(k as int).drop_last() == caches.take(j as int));
        assert(caches.take(k as int).last() == aggregate(part, inside));
        lemma_flushed_in_parts(store, head, part, inside);
    }
}

/// Flushing the caches of the shards of a run of flows, one after the other,
/// leaves the storage as one flush of the cache of the whole run does,
/// provided that no sum of the run leaves the signed 64-bit range: the
/// merge-add upsert puts together what the shards counted apart.
pub proof fn lemma_sharded_flush(
    store: Map<Place, Counters>,
    flows: Seq<FlowRecord>,
    inside: Seq<char>,
    shards: nat,
)
    requires
        shards > 0,
        genuine(flows),
        fits(counted(flows, inside)),
    ensures
        flushed_each(store, shard_caches(flows, inside, shards)) == flushed(
            store,
            aggregate(flows, inside),
        ),
{
    lemma_sharded_prefix(store, flows, inside, shards, shards);
    lemma_shard_bounds(flows.len(), shards, 0);
    let caches = shard_caches(flows, inside, shards);
    assert(caches.take(shards as int) == caches);
    assert(flows.take(flows.len() as int) == flows);
}

/// Upserting two runs of rows one after the other is upserting them as one
/// run.
pub proof fn lemma_merge_concat(store: Map<Place, Counters>, a: Seq<RowModel>, b: Seq<RowModel>)
    ensures
        merge_rows(store, a + b) == merge_rows(merge_rows(store, a), b),
    decreases b.len(),
{
    if b.len() == 0 {
        assert(a + b == a);
    } else {
        assert((a + b).drop_last() == a + b.drop_last());
        lemma_merge_concat(store, a, b.drop_last());
    }
}

/// The storage as one flush sees it: what is stored for good, and what the
/// open transaction, if there is one, would store on its commit. No one
/// else writes while the flush runs.
pub struct StorageModel {
    pub committed: Map<Place, Counters>,
    pub open: Option<Map<Place, Counters>>,
}

/// The storage after it has carried out `command`, or failed to.
///
/// A statement that is run by itself takes effect as a whole or not at all.
/// Inside a transaction, statements change only what the transaction would
/// store; the commit stores that for good; a failed commit and a rollback
/// drop it.
pub open spec fn obey(storage: StorageModel, command: CommandModel, outcome: Outcome)
    -> StorageModel {
    match command {
        CommandModel::Run { rows, .. } => match outcome {
            Outcome::Done => StorageModel {
                committed: merge_rows(storage.committed, rows),
                ..storage
            },
            Outcome::Failed => storage,
        },
        CommandModel::Begin => match outcome {
            Outcome::Done => StorageModel { open: Some(storage.committed), ..storage },
            Outcome::Failed => storage,
        },
        CommandModel::RunInside { row, .. } => match (outcome, storage.open) {
            (Outcome::Done, Some(pending)) => StorageModel {
                open: Some(merge_row(pending, row)),
                ..storage
            },
            _ => storage,
        },
        CommandModel::Commit => match (outcome, storage.open) {
            (Outcome::Done, Some(pending)) => StorageModel { committed: pending, open: None },
            _ => StorageModel { open: None, ..storage },
        },
        CommandModel::Rollback => StorageModel { open: None, ..storage },
    }
}

/// Whether the storage is what the flush takes it to be, given that it held
/// `before` when the flush began: the rows of the applied chunks are stored
/// for good and no others, and the open transaction, if the flush is inside
/// one, would store the rows that it has run so far.
pub open spec fn in_step(flush: FlushModel, storage: StorageModel, before: Map<Place, Counters>)
    -> bool {
    &&& storage.committed == merge_rows(before, flush.written())
    &&& match flush.phase {
        Phase::Start => storage.open is None,
        Phase::Inside(n) => storage.open == Some(
            merge_rows(storage.committed, flush.actions[flush.applied as int].rows.take(n as int)),
        ),
        Phase::Failing => true,
    }
}

/// A flush that has sent nothing is in step with the storage as it is.
pub proof fn lemma_in_step_at_start(flush: FlushModel, before: Map<Place, Counters>)
    requires
        flush == FlushModel::fresh(flush.actions),
    ensures
        in_step(flush, StorageModel { committed: before, open: None }, before),
{
    assert(flush.actions.take(0).len() == 0);
}

/// Flush and storage stay in step through every command, whatever its
/// outcome. So the storage never holds a part of a chunk for good: a chunk
/// is stored as a whole when its statement or its commit succeeds, and not
/// at all otherwise.
pub proof fn lemma_in_step(
    flush: FlushModel,
    storage: StorageModel,
    before: Map<Place, Counters>,
    outcome: Outcome,
)
    requires
        flush.wf(),
        in_step(flush, storage, before),
        flush.command() is Some,
    ensures
        flush.report(outcome).wf(),
        in_step(flush.report(outcome), obey(storage, flush.command()->0, outcome), before),
{
    lemma_report_wf(flush, outcome);
    let after = flush.report(outcome);
    let stored = obey(storage, flush.command()->0, outcome);
    let n = flush.applied as int;
    let action = flush.actions[n];
    assert(action == action_of(action.rows));
    if after.applied == flush.applied + 1 {
        assert(flush.actions.take(n + 1).drop_last() == flush.actions.take(n));
        assert(flush.actions.take(n + 1).last() == action);
        lemma_merge_concat(before, flush.written(), action.rows);
        assert(after.written() == flush.written() + action.rows);
        if action.path is PerRow {
            let m = flush.phase->Inside_0 as int;
            assert(action.rows.take(m) == action.rows);
        }
    } else {
        assert(after.written() == flush.written());
    }
    match flush.command()->0 {
        CommandModel::Begin => {
            if outcome == Outcome::Done {
                assert(action.rows.take(0).len() == 0);
            }
        },
        CommandModel::RunInside { row, .. } => {
            if outcome == Outcome::Done {
                let m = flush.phase->Inside_0 as int;
                assert(action.rows.take(m + 1).drop_last() == action.rows.take(m));
                assert(action.rows.take(m + 1).last() == row);
            }
        },
        _ => {},
    }
}

/// Once a flush is complete, its whole cache is stored for good and no
/// transaction is open.
pub proof fn lemma_complete_flush(
    flush: FlushModel,
    storage: StorageModel,
    before: Map<Place, Counters>,
    cache: CacheModel,
    size: nat,
)
    requires
        size >= 1,
        flush.wf(),
        flush.actions == plan(cache_rows(cache), size),
        in_step(flush, storage, before),
        flush.status() == FlushStatus::Complete,
    ensures
        storage.committed == flushed(before, cache),
        storage.open is None,
{
    lemma_plan(cache_rows(cache), size);
    assert(flush.actions.take(flush.applied as int) == flush.actions);
}

/// Once a flush has failed, the chunks that it applied before are stored
/// for good, as wholes: the rows that are stored, followed by the rows of
/// the chunks that were not applied, are the rows of the cache. And no
/// transaction is open.
pub proof fn lemma_aborted_flush(
    flush: FlushModel,
    storage: StorageModel,
    before: Map<Place, Counters>,
    cache: CacheModel,
    size: nat,
)
    requires
        size >= 1,
        flush.wf(),
        flush.actions == plan(cache_rows(cache), size),
        in_step(flush, storage, before),
        flush.status() == FlushStatus::Aborted,
    ensures
        storage.committed == merge_rows(before, flush.written()),
        flush.written() + rows_of_actions(flush.actions.skip(flush.applied as int)) == cache_rows(
            cache,
        ),
        storage.open is None,
{
    let n = flush.applied as int;
    lemma_plan(cache_rows(cache), size);
    lemma_rows_of_actions_concat(flush.actions.take(n), flush.actions.skip(n));
    assert(flush.actions.take(n) + flush.actions.skip(n) == flush.actions);
}

} // verus!
