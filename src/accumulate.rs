use std::collections::HashMap;
use vstd::prelude::*;

use crate::partition::{
    Measurement, measurement_route_key, measurement_route_spec, owner, route_filter,
};

verus! {

broadcast use vstd::std_specs::hash::group_hash_axioms;

/// A running summary: the last seen year and month, and the sum of values.
pub type Summary = (u32, u32, u64);

/// The summary every group starts from.
pub open spec fn zero_summary() -> Summary {
    (0, 0, 0)
}

/// The group key of a measurement; it happens to equal its route key.
pub open spec fn group_key_spec(m: Measurement) -> u64 {
    (m.0 * 100 + m.1) as u64
}

/// Folds one measurement into a summary: overwrite year and month, add the value.
pub open spec fn combine_spec(s: Summary, m: Measurement) -> Summary {
    (m.0, m.1, (s.2 + m.2) as u64)
}

/// Folds a batch into a summary, in order.
pub open spec fn fold_batch(s: Summary, evs: Seq<Measurement>) -> Summary
    decreases evs.len(),
{
    if evs.len() == 0 {
        s
    } else {
        combine_spec(fold_batch(s, evs.drop_last()), evs.last())
    }
}

/// The sum of the values of a batch.
pub open spec fn total_value(evs: Seq<Measurement>) -> nat
    decreases evs.len(),
{
    if evs.len() == 0 {
        0
    } else {
        total_value(evs.drop_last()) + evs.last().2 as nat
    }
}

/// The sum of the values of the measurements of `evs` in group `k`.
pub open spec fn key_total(evs: Seq<Measurement>, k: u64) -> nat
    decreases evs.len(),
{
    if evs.len() == 0 {
        0
    } else if group_key_spec(evs.last()) == k {
        key_total(evs.drop_last(), k) + evs.last().2 as nat
    } else {
        key_total(evs.drop_last(), k)
    }
}

/// Whether no group's sum of values exceeds what a summary can hold.
pub open spec fn totals_fit(evs: Seq<Measurement>) -> bool {
    forall|k: u64| #[trigger] key_total(evs, k) <= u64::MAX
}

/// The reference single-threaded fold of `evs` grouped by group key: one
/// summary per key that occurs, each folded from zero in arrival order.
pub open spec fn group_fold(evs: Seq<Measurement>) -> Map<u64, Summary>
    decreases evs.len(),
{
    if evs.len() == 0 {
        Map::empty()
    } else {
        let m = group_fold(evs.drop_last());
        let k = group_key_spec(evs.last());
        let prev = if m.contains_key(k) {
            m[k]
        } else {
            zero_summary()
        };
        m.insert(k, combine_spec(prev, evs.last()))
    }
}

/// What worker `w` of `n` emits for a closed epoch that held `evs`.
pub open spec fn worker_output(evs: Seq<Measurement>, n: nat, w: nat) -> Map<u64, Summary> {
    group_fold(route_filter(evs, n, w))
}

/// Group key of a measurement: `year * 100 + month`.
pub fn measurement_group_key(m: &Measurement) -> (r: u64)
    ensures
        r == group_key_spec(*m),
        r as int == m.0 * 100 + m.1,
{
    (m.0 as u64) * 100 + (m.1 as u64)
}

/// The sum of values over a prefix never exceeds the whole batch's.
proof fn lemma_total_prefix(evs: Seq<Measurement>, i: int)
    requires
        0 <= i <= evs.len(),
    ensures
        total_value(evs.take(i)) <= total_value(evs),
    decreases evs.len(),
{
    if i < evs.len() {
        assert(evs.drop_last().take(i) =~= evs.take(i));
        lemma_total_prefix(evs.drop_last(), i);
    } else {
        assert(evs.take(i) =~= evs);
    }
}

/// A group's sum of values over a prefix never exceeds the whole batch's.
proof fn lemma_key_total_prefix(evs: Seq<Measurement>, i: int, k: u64)
    requires
        0 <= i <= evs.len(),
    ensures
        key_total(evs.take(i), k) <= key_total(evs, k),
    decreases evs.len(),
{
    if i < evs.len() {
        assert(evs.drop_last().take(i) =~= evs.take(i));
        lemma_key_total_prefix(evs.drop_last(), i, k);
    } else {
        assert(evs.take(i) =~= evs);
    }
}

/// Where a group's values fit, its folded sum is their exact sum.
proof fn lemma_fold_sum(evs: Seq<Measurement>, k: u64)
    requires
        key_total(evs, k) <= u64::MAX,
    ensures
        group_fold(evs).contains_key(k) ==> group_fold(evs)[k].2 == key_total(evs, k),
        !group_fold(evs).contains_key(k) ==> key_total(evs, k) == 0,
    decreases evs.len(),
{
    if evs.len() > 0 {
        lemma_fold_sum(evs.drop_last(), k);
    }
}

/// Folds a delivered batch into the summary: each measurement overwrites the
/// year and month and adds its value.
pub fn combine_batch(sum: &mut Summary, data: &Vec<Measurement>)
    requires
        old(sum).2 + total_value(data@) <= u64::MAX,
    ensures
        *final(sum) == fold_batch(*old(sum), data@),
        final(sum).2 == old(sum).2 + total_value(data@),
{
    let ghost s0 = *sum;
    let mut i: usize = 0;
    while i < data.len()
        invariant
            i <= data@.len(),
            s0.2 + total_value(data@) <= u64::MAX,
            *sum == fold_batch(s0, data@.take(i as int)),
            sum.2 == s0.2 + total_value(data@.take(i as int)),
        decreases data@.len() - i,
    {
        let (year, month, val) = data[i];
        proof {
            assert(data@.take(i + 1).drop_last() =~= data@.take(i as int));
            lemma_total_prefix(data@, i + 1);
        }
        sum.0 = year;
        sum.1 = month;
        sum.2 = sum.2 + val;
        i = i + 1;
    }
    proof {
        assert(data@.take(i as int) =~= data@);
    }
}

/// Folds a worker's batch into one summary per group key, each started from
/// zero, keeping the arrival order within each group.
pub fn aggregate_by_key(batch: &Vec<Measurement>) -> (r: HashMap<u64, Summary>)
    requires
        totals_fit(batch@),
    ensures
        r@ == group_fold(batch@),
{
    let mut acc: HashMap<u64, Summary> = HashMap::new();
    let mut i: usize = 0;
    while i < batch.len()
        invariant
            i <= batch@.len(),
            totals_fit(batch@),
            acc@ == group_fold(batch@.take(i as int)),
        decreases batch@.len() - i,
    {
        let m = batch[i];
        let k = measurement_group_key(&m);
        let ghost pre = batch@.take(i as int);
        let ghost cur = batch@.take(i + 1);
        proof {
            assert(cur.drop_last() =~= pre);
            assert(cur.last() == m);
            lemma_key_total_prefix(batch@, i + 1, k);
            assert(key_total(batch@, k) <= u64::MAX);
            lemma_fold_sum(pre, k);
        }
        let prev: Summary = match acc.get(&k) {
            Some(s) => *s,
            None => (0, 0, 0),
        };
        let next: Summary = (m.0, m.1, prev.2 + m.2);
        acc.insert(k, next);
        i = i + 1;
    }
    proof {
        assert(batch@.take(i as int) =~= batch@);
    }
    acc
}

/// Routing a batch to one worker keeps exactly the groups that worker owns,
/// each with the same summary as the whole batch folds to.
proof fn lemma_route_fold(evs: Seq<Measurement>, n: nat, w: nat)
    requires
        n > 0,
    ensures
        group_fold(route_filter(evs, n, w)) == group_fold(evs).restrict(
            Set::new(|k: u64| owner(k, n) == w),
        ),
    decreases evs.len(),
{
    let owned = Set::new(|k: u64| owner(k, n) == w);
    if evs.len() == 0 {
        assert(group_fold(evs).restrict(owned) =~= Map::empty());
    } else {
        let pre = route_filter(evs.drop_last(), n, w);
        let e = evs.last();
        lemma_route_fold(evs.drop_last(), n, w);
        assert(measurement_route_spec(e) == group_key_spec(e));
        if owner(measurement_route_spec(e), n) == w {
            assert(pre.push(e).drop_last() =~= pre);
        }
        assert(group_fold(route_filter(evs, n, w)) =~= group_fold(evs).restrict(owned));
    }
}

/// Routing never raises a group's sum of values.
pub proof fn lemma_route_totals(evs: Seq<Measurement>, n: nat, w: nat, k: u64)
    requires
        n > 0,
    ensures
        key_total(route_filter(evs, n, w), k) <= key_total(evs, k),
    decreases evs.len(),
{
    if evs.len() > 0 {
        let pre = route_filter(evs.drop_last(), n, w);
        let e = evs.last();
        lemma_route_totals(evs.drop_last(), n, w, k);
        assert(measurement_route_spec(e) == group_key_spec(e));
        if owner(measurement_route_spec(e), n) == w {
            assert(pre.push(e).drop_last() =~= pre);
        }
    }
}

/// Repartitioning invariance: whatever the number of workers `n`, the record
/// for each group key `k` is emitted by exactly one worker, `k mod n`, and
/// equals the single-threaded reference fold of all events grouped by key;
/// no worker emits a key that the reference fold lacks. The records emitted
/// across all workers are therefore the same for every worker count.
pub proof fn lemma_repartitioning_invariance(evs: Seq<Measurement>, n: nat, k: u64)
    requires
        n > 0,
    ensures
        forall|w: nat|
            w < n && w != owner(k, n) ==> !(#[trigger] worker_output(evs, n, w)).contains_key(k),
        worker_output(evs, n, owner(k, n)).contains_key(k) == group_fold(evs).contains_key(k),
        group_fold(evs).contains_key(k) ==> worker_output(evs, n, owner(k, n))[k] == group_fold(
            evs,
        )[k],
{
    lemma_route_fold(evs, n, owner(k, n));
    assert forall|w: nat|
        w < n && w != owner(k, n) implies !(#[trigger] worker_output(evs, n, w)).contains_key(k) by {
        lemma_route_fold(evs, n, w);
    }
}

} // verus!
