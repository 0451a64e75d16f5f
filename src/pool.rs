use std::collections::HashMap;
use vstd::prelude::*;

use crate::accumulate::{
    Summary, aggregate_by_key, group_key_spec, key_total, lemma_route_totals, totals_fit,
    worker_output,
};
use crate::epoch::EpochController;
use crate::error::EngineError;
use crate::partition::{Measurement, route_batch};
use crate::probe::{completed_through_spec, has_completed_through};

verus! {

broadcast use vstd::std_specs::hash::group_hash_axioms;

/// The records one closed epoch produced: for each worker, its summary per
/// group key.
pub struct EpochOutput {
    pub epoch: u64,
    pub per_worker: Vec<HashMap<u64, Summary>>,
}

impl View for EpochOutput {
    type V = (u64, Seq<Map<u64, Summary>>);

    open spec fn view(&self) -> (u64, Seq<Map<u64, Summary>>) {
        (self.epoch, self.per_worker@.map_values(|h: HashMap<u64, Summary>| h@))
    }
}

/// The abstract state of a pool.
pub ghost struct PoolView {
    pub worker_count: nat,
    /// The open epoch.
    pub epoch: u64,
    /// Measurements sent in the open epoch, in order.
    pub open: Seq<Measurement>,
    /// The output of every closed epoch, oldest first.
    pub log: Seq<(u64, Seq<Map<u64, Summary>>)>,
}

/// What a pool of `n` workers emits on closing `epoch` after `evs` were sent.
pub open spec fn closed_epoch(epoch: u64, evs: Seq<Measurement>, n: nat) -> (
    u64,
    Seq<Map<u64, Summary>>,
) {
    (epoch, Seq::new(n, |w: int| worker_output(evs, n, w as nat)))
}

/// A pool of symmetric workers summing measurements per group key within
/// epochs. Each measurement is routed to the worker that owns its route key;
/// a worker folds its batch when the epoch closes and emits one summary per
/// group key it saw.
pub struct SumPool {
    worker_count: usize,
    controller: EpochController,
    open: Vec<Measurement>,
    log: Vec<EpochOutput>,
}

impl View for SumPool {
    type V = PoolView;

    closed spec fn view(&self) -> PoolView {
        PoolView {
            worker_count: self.worker_count as nat,
            epoch: self.controller@,
            open: self.open@,
            log: self.log@.map_values(|o: EpochOutput| o@),
        }
    }
}

impl SumPool {
    /// The pool's invariant: at least one worker, every group's sum in the
    /// open epoch fits, and closed epochs are logged in increasing order,
    /// each below the open one and with one output per worker.
    pub open spec fn wf(&self) -> bool {
        &&& self@.worker_count > 0
        &&& totals_fit(self@.open)
        &&& forall|i: int|
            0 <= i < self@.log.len() ==> (#[trigger] self@.log[i]).0 < self@.epoch
                && self@.log[i].1.len() == self@.worker_count
        &&& forall|i: int, j: int|
            0 <= i < j < self@.log.len() ==> (#[trigger] self@.log[i]).0 < (#[trigger] self@.log[j]).0
    }

    /// A pool of `worker_count` workers at epoch 0; no workers is a
    /// configuration error.
    pub fn new(worker_count: usize) -> (r: Result<SumPool, EngineError>)
        ensures
            r is Err <==> worker_count == 0,
            r is Err ==> r == Err::<SumPool, EngineError>(EngineError::Configuration),
            r matches Ok(p) ==> p.wf() && p@ == (PoolView {
                worker_count: worker_count as nat,
                epoch: 0,
                open: Seq::empty(),
                log: Seq::empty(),
            }),
    {
        if worker_count == 0 {
            return Err(EngineError::Configuration);
        }
        let p = SumPool {
            worker_count,
            controller: EpochController::new(),
            open: Vec::new(),
            log: Vec::new(),
        };
        proof {
            assert(p@.open =~= Seq::empty());
            assert(p@.log =~= Seq::empty());
        }
        Ok(p)
    }

    /// The number of workers.
    pub fn worker_count(&self) -> (r: usize)
        ensures
            r as nat == self@.worker_count,
    {
        self.worker_count
    }

    /// The open epoch.
    pub fn current_epoch(&self) -> (r: u64)
        ensures
            r == self@.epoch,
    {
        self.controller.current()
    }

    /// The output of every closed epoch, oldest first.
    pub fn outputs(&self) -> (r: &Vec<EpochOutput>)
        ensures
            r@.map_values(|o: EpochOutput| o@) == self@.log,
    {
        &self.log
    }

    /// Sends a measurement in the open epoch.
    pub fn send(&mut self, m: Measurement)
        requires
            old(self).wf(),
            key_total(old(self)@.open, group_key_spec(m)) + m.2 <= u64::MAX,
        ensures
            final(self).wf(),
            final(self)@ == (PoolView { open: old(self)@.open.push(m), ..old(self)@ }),
    {
        let ghost before = self@.open;
        self.open.push(m);
        proof {
            assert(self@.open.drop_last() =~= before);
            assert forall|k: u64| #[trigger] key_total(self@.open, k) <= u64::MAX by {
                assert(key_total(before, k) <= u64::MAX);
            }
        }
    }

    /// Closes the open epoch and opens `next`: every worker folds the batch
    /// routed to it and the epoch's output is logged. Fails, changing
    /// nothing, unless `next` is strictly greater than the open epoch.
    pub fn advance(&mut self, next: u64) -> (r: Result<(), EngineError>)
        requires
            old(self).wf(),
        ensures
            final(self).wf(),
            r is Ok <==> next > old(self)@.epoch,
            r is Err ==> r == Err::<(), EngineError>(EngineError::EpochOrder) && final(self)@ == old(
                self,
            )@,
            r is Ok ==> final(self)@ == (PoolView {
                worker_count: old(self)@.worker_count,
                epoch: next,
                open: Seq::empty(),
                log: old(self)@.log.push(
                    closed_epoch(old(self)@.epoch, old(self)@.open, old(self)@.worker_count),
                ),
            }),
    {
        let current = self.controller.current();
        if next <= current {
            return Err(EngineError::EpochOrder);
        }
        let n = self.worker_count;
        let ghost evs = self@.open;
        let mut per_worker: Vec<HashMap<u64, Summary>> = Vec::new();
        let mut w: usize = 0;
        while w < n
            invariant
                w <= n,
                n > 0,
                n == self.worker_count,
                evs == self.open@,
                totals_fit(evs),
                per_worker@.map_values(|h: HashMap<u64, Summary>| h@) =~= Seq::new(
                    w as nat,
                    |j: int| worker_output(evs, n as nat, j as nat),
                ),
            decreases n - w,
        {
            let batch = route_batch(&self.open, n, w);
            proof {
                assert forall|k: u64| #[trigger] key_total(batch@, k) <= u64::MAX by {
                    lemma_route_totals(evs, n as nat, w as nat, k);
                }
            }
            let out = aggregate_by_key(&batch);
            let ghost done = per_worker@;
            per_worker.push(out);
            proof {
                assert(per_worker@.map_values(|h: HashMap<u64, Summary>| h@) =~= done.map_values(
                    |h: HashMap<u64, Summary>| h@,
                ).push(out@));
            }
            w = w + 1;
        }
        let ghost old_log = self@.log;
        self.log.push(EpochOutput { epoch: current, per_worker });
        self.open = Vec::new();
        let _ = self.controller.advance(next);
        proof {
            assert(self@.log =~= old_log.push(closed_epoch(current, evs, n as nat)));
            assert(self@.open =~= Seq::empty());
            assert forall|k: u64| #[trigger] key_total(self@.open, k) <= u64::MAX by {}
        }
        Ok(())
    }

    /// Whether every stage and worker has finished all work at or below
    /// `epoch`: the feeder's open epoch and each worker's least outstanding
    /// epoch must all lie above it.
    pub fn has_completed_through(&self, epoch: u64) -> (r: bool)
        requires
            self.wf(),
        ensures
            r == (epoch < self@.epoch),
    {
        let current = self.controller.current();
        let mut frontiers: Vec<u64> = Vec::new();
        frontiers.push(current);
        let mut w: usize = 0;
        while w < self.worker_count
            invariant
                w <= self.worker_count,
                frontiers@.len() == w + 1,
                forall|i: int| 0 <= i < frontiers@.len() ==> frontiers@[i] == current,
            decreases self.worker_count - w,
        {
            frontiers.push(current);
            w = w + 1;
        }
        let r = has_completed_through(&frontiers, epoch);
        proof {
            if epoch >= current {
                assert(!completed_through_spec(frontiers@, epoch)) by {
                    assert(frontiers@[0] <= epoch);
                }
            }
        }
        r
    }
}

} // verus!
