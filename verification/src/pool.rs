//! A pool of workers that maps over items and gives results in the order in which they
//! are ready.

use vstd::prelude::*;

verus! {

/// How much work is under way in a pool.
#[derive(Debug)]
pub struct PoolMap {
    /// items that workers have and whose results have not been taken
    pub work_left: usize,
}

/// What a worker gives for an item: a value, or that no more are wanted.
#[derive(Debug)]
pub enum PoolResult<V> {
    Continue(V),
    Break,
}

/// What a pool does for the next result.
#[derive(Debug, Clone, Copy, PartialEq, Eq, Structural)]
pub enum PoolStep {
    /// wait for a worker's result
    Await,
    /// no work is left
    Finished,
}

/// How much work is under way at first: one item for each worker, as far as there are
/// items.
pub open spec fn work_at_first(items: nat, workers: nat) -> nat {
    if items < workers {
        items
    } else {
        workers
    }
}

/// How much work is under way after a result has been taken, with another item handed
/// out or none left.
pub open spec fn work_after(work_left: int, fed_another: bool) -> int {
    if fed_another {
        work_left
    } else {
        work_left - 1
    }
}

/// Whether an item is handed out at first, and how much work is under way then.
pub open spec fn after_feed(work_left: int, workers: int, has_item: bool) -> (bool, int) {
    if has_item && work_left < workers {
        (true, work_left + 1)
    } else {
        (false, work_left)
    }
}

/// What a pool does for the next result: it waits for one while work is under way.
pub open spec fn next_step(work_left: int) -> PoolStep {
    if work_left == 0 {
        PoolStep::Finished
    } else {
        PoolStep::Await
    }
}

/// What is given for a worker's result, and how much work is under way then: a value is
/// given on, and another item is handed out or none is left; where no more are wanted,
/// nothing is given and nothing changes.
pub open spec fn after_result<V>(work_left: int, result: PoolResult<V>, fed_another: bool) -> (
    Option<V>,
    int,
) {
    match result {
        PoolResult::Continue(value) => (Some(value), work_after(work_left, fed_another)),
        PoolResult::Break => (None, work_left),
    }
}

impl PoolMap {
    /// A pool before any item is handed out.
    pub fn new() -> (pool: Self)
        ensures
            pool.work_left == 0,
    {
        PoolMap { work_left: 0 }
    }

    /// Hand out an item at first, if there is one and a worker is free for it.
    pub fn feed(&mut self, workers: usize, has_item: bool) -> (fed: bool)
        requires
            old(self).work_left <= workers,
        ensures
            (fed, final(self).work_left as int) == after_feed(
                old(self).work_left as int,
                workers as int,
                has_item,
            ),
    {
        if has_item && self.work_left < workers {
            self.work_left = self.work_left + 1;
            true
        } else {
            false
        }
    }

    /// What to do for the next result.
    pub fn next(&self) -> (step: PoolStep)
        ensures
            step == next_step(self.work_left as int),
    {
        if self.work_left == 0 {
            PoolStep::Finished
        } else {
            PoolStep::Await
        }
    }

    /// Take a worker's result; for a value, another item was handed out in its place or none
    /// was left.
    pub fn receive<V>(&mut self, result: PoolResult<V>, fed_another: bool) -> (given: Option<V>)
        requires
            old(self).work_left > 0,
        ensures
            (given, final(self).work_left as int) == after_result(
                old(self).work_left as int,
                result,
                fed_another,
            ),
    {
        match result {
            PoolResult::Continue(value) => {
                if !fed_another {
                    self.work_left = self.work_left - 1;
                }
                Some(value)
            },
            PoolResult::Break => None,
        }
    }
}

/// How much work is under way after some results have been taken.
pub open spec fn work_after_results(items: nat, workers: nat, results: nat) -> int
    decreases results,
{
    if results == 0 {
        work_at_first(items, workers) as int
    } else {
        work_after(
            work_after_results(items, workers, (results - 1) as nat),
            workers + results - 1 < items,
        )
    }
}

/// A pool with workers ends exactly when each item's result has been taken.
pub proof fn pool_takes_every_result(items: nat, workers: nat, results: nat)
    requires
        workers > 0,
        results <= items,
    ensures
        work_after_results(items, workers, results) >= 0,
        work_after_results(items, workers, results) == 0 <==> results == items,
    decreases results,
{
    lemma_work_after_results(items, workers, results);
}

proof fn lemma_work_after_results(items: nat, workers: nat, results: nat)
    requires
        results <= items,
    ensures
        work_after_results(items, workers, results) == if workers + results < items {
            workers as int
        } else {
            items - results
        },
    decreases results,
{
    if results > 0 {
        lemma_work_after_results(items, workers, (results - 1) as nat);
    }
}

/// How far a pool has come over some items: how many it has handed out, those whose results
/// have not been taken, and the values taken.
pub struct PoolRun<T, V> {
    pub fed: nat,
    pub under_way: Seq<T>,
    pub taken: Seq<V>,
}

/// A pool that takes the result of one of the items under way, and hands out the next item
/// if there is one.
pub open spec fn pool_step<T, V>(
    items: Seq<T>,
    f: spec_fn(T) -> V,
    run: PoolRun<T, V>,
    at: int,
) -> PoolRun<T, V> {
    let left = run.under_way.remove(at);
    let more = run.fed < items.len();
    PoolRun {
        fed: if more {
            run.fed + 1
        } else {
            run.fed
        },
        under_way: if more {
            left.push(items[run.fed as int])
        } else {
            left
        },
        taken: run.taken.push(f(run.under_way[at])),
    }
}

/// A pool over some items, of which results are taken in some order: each number tells which
/// of the items under way is ready next.
pub open spec fn pool_run<T, V>(
    items: Seq<T>,
    workers: nat,
    f: spec_fn(T) -> V,
    order: Seq<int>,
) -> PoolRun<T, V>
    decreases order.len(),
{
    if order.len() == 0 {
        let first = work_at_first(items.len(), workers);
        PoolRun { fed: first, under_way: items.take(first as int), taken: seq![] }
    } else {
        pool_step(items, f, pool_run(items, workers, f, order.drop_last()), order.last())
    }
}

/// Whether each number of an order is that of an item under way.
pub open spec fn possible<T, V>(
    items: Seq<T>,
    workers: nat,
    f: spec_fn(T) -> V,
    order: Seq<int>,
) -> bool
    decreases order.len(),
{
    order.len() > 0 ==> {
        &&& possible(items, workers, f, order.drop_last())
        &&& 0 <= order.last() < pool_run(items, workers, f, order.drop_last()).under_way.len()
    }
}

/// Whatever the order in which workers are ready, the values taken so far and those of the
/// items under way are together the values of the items handed out, each once; and as much
/// work is under way as the pool counts.
pub proof fn pool_gives_values_of_items<T, V>(
    items: Seq<T>,
    workers: nat,
    f: spec_fn(T) -> V,
    order: Seq<int>,
)
    requires
        possible(items, workers, f, order),
    ensures
        ({
            let run = pool_run(items, workers, f, order);
            &&& order.len() <= items.len()
            &&& run.fed == work_at_first(items.len(), workers + order.len())
            &&& run.taken.len() == order.len()
            &&& run.under_way.len() == work_after_results(items.len(), workers, order.len())
            &&& run.taken.to_multiset().add(run.under_way.map_values(f).to_multiset())
                == items.take(run.fed as int).map_values(f).to_multiset()
        }),
    decreases order.len(),
{
    broadcast use vstd::seq_lib::group_to_multiset_ensures;

    let run = pool_run(items, workers, f, order);
    if order.len() == 0 {
        assert(run.taken.to_multiset().add(run.under_way.map_values(f).to_multiset())
            =~= items.take(run.fed as int).map_values(f).to_multiset());
    } else {
        let before = pool_run(items, workers, f, order.drop_last());
        let at = order.last();
        pool_gives_values_of_items(items, workers, f, order.drop_last());
        lemma_work_after_results(items.len(), workers, order.drop_last().len());
        lemma_work_after_results(items.len(), workers, order.len());
        let images = before.under_way.map_values(f);
        let left = before.under_way.remove(at);
        assert(left.map_values(f) =~= images.remove(at));
        let value = images[at];
        assert(images.contains(value));
        assert(images.remove(at).to_multiset() =~= images.to_multiset().remove(value));
        if before.fed < items.len() {
            let next = items[before.fed as int];
            assert(run.under_way.map_values(f) =~= images.remove(at).push(f(next)));
            assert(items.take(run.fed as int).map_values(f) =~= items.take(
                before.fed as int,
            ).map_values(f).push(f(next)));
        }
        assert(run.taken.to_multiset().add(run.under_way.map_values(f).to_multiset())
            =~= items.take(run.fed as int).map_values(f).to_multiset());
    }
}

/// A pool with workers goes on until it has given a value for every item, and then it has
/// given exactly the values of the items, each once, in some order.
pub proof fn pool_gives_every_value<T, V>(
    items: Seq<T>,
    workers: nat,
    f: spec_fn(T) -> V,
    order: Seq<int>,
)
    requires
        workers > 0,
        possible(items, workers, f, order),
    ensures
        ({
            let run = pool_run(items, workers, f, order);
            &&& run.under_way.len() == 0 <==> order.len() == items.len()
            &&& run.under_way.len() == 0 ==> run.taken.len() == items.len()
                && run.taken.to_multiset() == items.map_values(f).to_multiset()
        }),
{
    broadcast use vstd::seq_lib::group_to_multiset_ensures;

    let run = pool_run(items, workers, f, order);
    pool_gives_values_of_items(items, workers, f, order);
    pool_takes_every_result(items.len(), workers, order.len());
    if run.under_way.len() == 0 {
        assert(items.take(run.fed as int) =~= items);
        assert(run.under_way.map_values(f) =~= seq![]);
        assert(run.taken.to_multiset().add(run.under_way.map_values(f).to_multiset())
            =~= run.taken.to_multiset());
    }
}

/// How much work is under way after some attempts to feed a new pool from some items, each
/// with the next item if there is one.
pub open spec fn work_after_feeds(items: nat, workers: nat, attempts: nat) -> int
    decreases attempts,
{
    if attempts == 0 {
        0
    } else {
        let work_left = work_after_feeds(items, workers, (attempts - 1) as nat);
        after_feed(work_left, workers as int, work_left < items).1
    }
}

proof fn lemma_work_after_feeds(items: nat, workers: nat, attempts: nat)
    requires
        attempts <= workers,
    ensures
        work_after_feeds(items, workers, attempts) == work_at_first(items, attempts),
    decreases attempts,
{
    if attempts > 0 {
        lemma_work_after_feeds(items, workers, (attempts - 1) as nat);
    }
}

/// What the steps of a pool come to: it is fed once for each worker, then takes results in
/// some order, each the value of an item under way, and is fed another item for each while
/// there are any. How much work it counts as under way, and what it has given.
pub open spec fn pool_steps<T, V>(
    items: Seq<T>,
    workers: nat,
    f: spec_fn(T) -> V,
    order: Seq<int>,
) -> (int, Seq<Option<V>>)
    decreases order.len(),
{
    if order.len() == 0 {
        (work_after_feeds(items.len(), workers, workers), seq![])
    } else {
        let (work_left, given) = pool_steps(items, workers, f, order.drop_last());
        let run = pool_run(items, workers, f, order.drop_last());
        let result = PoolResult::Continue(f(run.under_way[order.last()]));
        let (value, work_left) = after_result(work_left, result, run.fed < items.len());
        (work_left, given.push(value))
    }
}

/// The steps of a pool count as much work as there are items under way, and give the values
/// that are taken.
pub proof fn steps_follow_run<T, V>(
    items: Seq<T>,
    workers: nat,
    f: spec_fn(T) -> V,
    order: Seq<int>,
)
    requires
        possible(items, workers, f, order),
    ensures
        ({
            let run = pool_run(items, workers, f, order);
            let (work_left, given) = pool_steps(items, workers, f, order);
            &&& work_left == run.under_way.len()
            &&& given == run.taken.map_values(|value: V| Some(value))
        }),
    decreases order.len(),
{
    let run = pool_run(items, workers, f, order);
    let (work_left, given) = pool_steps(items, workers, f, order);
    if order.len() == 0 {
        lemma_work_after_feeds(items.len(), workers, workers);
    } else {
        steps_follow_run(items, workers, f, order.drop_last());
    }
    assert(given =~= run.taken.map_values(|value: V| Some(value)));
}

/// The steps of a pool with workers wait for a result exactly until one has been taken for
/// every item. Then they have given as many values as there are items, which are those of
/// the items, each once, in some order.
pub proof fn steps_give_every_value<T, V>(
    items: Seq<T>,
    workers: nat,
    f: spec_fn(T) -> V,
    order: Seq<int>,
)
    requires
        workers > 0,
        possible(items, workers, f, order),
    ensures
        ({
            let (work_left, given) = pool_steps(items, workers, f, order);
            let values = given.map_values(|value: Option<V>| value->0);
            &&& next_step(work_left) == PoolStep::Finished <==> order.len() == items.len()
            &&& forall|i: int| 0 <= i < given.len() ==> (#[trigger] given[i]) is Some
            &&& next_step(work_left) == PoolStep::Finished ==> given.len() == items.len()
                && values.to_multiset() == items.map_values(f).to_multiset()
        }),
{
    let run = pool_run(items, workers, f, order);
    let (work_left, given) = pool_steps(items, workers, f, order);
    steps_follow_run(items, workers, f, order);
    pool_gives_every_value(items, workers, f, order);
    assert(given.map_values(|value: Option<V>| value->0) =~= run.taken);
}

} // verus!
