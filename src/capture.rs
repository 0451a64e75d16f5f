use vstd::prelude::*;

use crate::epoch::EpochController;
use crate::error::EngineError;
use crate::partition::{owner, route_filter_values, route_values};

verus! {

/// A buffer of output records, each tagged with its epoch, kept in epoch
/// order so that extraction needs no reordering.
pub struct CaptureLog<T> {
    entries: Vec<(u64, T)>,
}

impl<T> View for CaptureLog<T> {
    type V = Seq<(u64, T)>;

    closed spec fn view(&self) -> Seq<(u64, T)> {
        self.entries@
    }
}

/// Whether the records of a log are in non-decreasing epoch order.
pub open spec fn epoch_ordered<T>(s: Seq<(u64, T)>) -> bool {
    forall|i: int, j: int| 0 <= i < j < s.len() ==> (#[trigger] s[i]).0 <= (#[trigger] s[j]).0
}

impl<T: Copy> CaptureLog<T> {
    /// An empty log.
    pub fn new() -> (r: CaptureLog<T>)
        ensures
            r@ == Seq::<(u64, T)>::empty(),
    {
        CaptureLog { entries: Vec::new() }
    }

    /// Records `value` as output of `epoch`, which may not precede the epoch
    /// of any record already held.
    pub fn record(&mut self, epoch: u64, value: T)
        requires
            epoch_ordered(old(self)@),
            old(self)@.len() > 0 ==> old(self)@.last().0 <= epoch,
        ensures
            final(self)@ == old(self)@.push((epoch, value)),
            epoch_ordered(final(self)@),
    {
        self.entries.push((epoch, value));
    }

    /// The recorded values, flattened in epoch order.
    pub fn extract(&self) -> (r: Vec<T>)
        ensures
            r@ == self@.map_values(|e: (u64, T)| e.1),
    {
        let mut out: Vec<T> = Vec::new();
        let mut i: usize = 0;
        while i < self.entries.len()
            invariant
                i <= self@.len(),
                out@ =~= self@.take(i as int).map_values(|e: (u64, T)| e.1),
            decreases self@.len() - i,
        {
            let (_, v) = self.entries[i];
            out.push(v);
            i = i + 1;
        }
        proof {
            assert(self@.take(i as int) =~= self@);
        }
        out
    }
}

/// The transform of the linear pipeline.
pub open spec fn square_plus_one_spec(x: u64) -> int {
    x * x + 1
}

/// `x * x + 1`.
pub fn square_plus_one(x: u64) -> (r: u64)
    requires
        x * x + 1 <= u64::MAX,
    ensures
        r == square_plus_one_spec(x),
{
    x * x + 1
}

/// `10 * x`.
pub fn times_ten(x: i32) -> (r: i32)
    requires
        i32::MIN <= 10 * x <= i32::MAX,
    ensures
        r == 10 * x,
{
    10 * x
}

/// Runs the linear pipeline on `worker_count` workers: every input is
/// routed to the worker owning its value and mapped to `x * x + 1` there.
/// Returns what each worker emitted, in arrival order.
pub fn run_linear_steps(inputs: &Vec<u64>, worker_count: usize) -> (r: Result<
    Vec<Vec<u64>>,
    EngineError,
>)
    requires
        forall|i: int| 0 <= i < inputs@.len() ==> inputs@[i] * inputs@[i] + 1 <= u64::MAX,
    ensures
        r is Err <==> worker_count == 0,
        r is Err ==> r == Err::<Vec<Vec<u64>>, EngineError>(EngineError::Configuration),
        r matches Ok(outs) ==> outs@.len() == worker_count && forall|w: int|
            0 <= w < worker_count ==> (#[trigger] outs@[w])@ == route_filter_values(
                inputs@,
                worker_count as nat,
                w as nat,
            ).map_values(|x: u64| square_plus_one_spec(x) as u64),
{
    if worker_count == 0 {
        return Err(EngineError::Configuration);
    }
    let mut outs: Vec<Vec<u64>> = Vec::new();
    let mut w: usize = 0;
    while w < worker_count
        invariant
            w <= worker_count,
            worker_count > 0,
            forall|i: int| 0 <= i < inputs@.len() ==> inputs@[i] * inputs@[i] + 1 <= u64::MAX,
            outs@.len() == w,
            forall|j: int|
                0 <= j < w ==> (#[trigger] outs@[j])@ == route_filter_values(
                    inputs@,
                    worker_count as nat,
                    j as nat,
                ).map_values(|x: u64| square_plus_one_spec(x) as u64),
        decreases worker_count - w,
    {
        let batch = route_values(inputs, worker_count, w);
        proof {
            lemma_route_values_from(inputs@, worker_count as nat, w as nat);
        }
        let mut mapped: Vec<u64> = Vec::new();
        let mut i: usize = 0;
        while i < batch.len()
            invariant
                i <= batch@.len(),
                forall|k: int| 0 <= k < batch@.len() ==> batch@[k] * batch@[k] + 1 <= u64::MAX,
                mapped@ =~= batch@.take(i as int).map_values(
                    |x: u64| square_plus_one_spec(x) as u64,
                ),
            decreases batch@.len() - i,
        {
            let y = square_plus_one(batch[i]);
            mapped.push(y);
            i = i + 1;
        }
        proof {
            assert(batch@.take(i as int) =~= batch@);
        }
        outs.push(mapped);
        w = w + 1;
    }
    Ok(outs)
}

/// Every value routed to a worker comes from the inputs.
proof fn lemma_route_values_from(xs: Seq<u64>, n: nat, w: nat)
    ensures
        forall|k: int|
            0 <= k < route_filter_values(xs, n, w).len() ==> exists|i: int|
                0 <= i < xs.len() && xs[i] == #[trigger] route_filter_values(xs, n, w)[k],
    decreases xs.len(),
{
    if xs.len() > 0 {
        let pre = xs.drop_last();
        lemma_route_values_from(pre, n, w);
        let r = route_filter_values(xs, n, w);
        assert forall|k: int| 0 <= k < r.len() implies exists|i: int|
            0 <= i < xs.len() && xs[i] == #[trigger] r[k] by {
            if k < route_filter_values(pre, n, w).len() {
                let i = choose|i: int| 0 <= i < pre.len() && pre[i] == route_filter_values(pre, n, w)[k];
                assert(xs[i] == r[k]);
            } else {
                assert(xs[xs.len() - 1] == r[k]);
            }
        }
    }
}

/// Runs the capture pipeline: one feeder sends each input in an epoch of its
/// own, the value is mapped to `10 * x` on the worker that received it, and
/// every output is captured with its epoch. The extracted log is returned.
pub fn run_capture(inputs: &Vec<i32>, worker_count: usize) -> (r: Result<Vec<i32>, EngineError>)
    requires
        forall|i: int| 0 <= i < inputs@.len() ==> i32::MIN <= 10 * #[trigger] inputs@[i] <= i32::MAX,
    ensures
        r is Err <==> worker_count == 0,
        r is Err ==> r == Err::<Vec<i32>, EngineError>(EngineError::Configuration),
        r matches Ok(out) ==> out@ == inputs@.map_values(|x: i32| (10 * x) as i32),
{
    if worker_count == 0 {
        return Err(EngineError::Configuration);
    }
    let mut feeder = EpochController::new();
    let mut log: CaptureLog<i32> = CaptureLog::new();
    let mut i: usize = 0;
    while i < inputs.len()
        invariant
            i <= inputs@.len(),
            forall|k: int| 0 <= k < inputs@.len() ==> i32::MIN <= 10 * #[trigger] inputs@[k] <= i32::MAX,
            feeder@ == i,
            epoch_ordered(log@),
            log@.len() == i,
            forall|k: int| 0 <= k < i ==> (#[trigger] log@[k]).0 < feeder@,
            log@.map_values(|e: (u64, i32)| e.1) =~= inputs@.take(i as int).map_values(
                |x: i32| (10 * x) as i32,
            ),
        decreases inputs@.len() - i,
    {
        let (epoch, x) = feeder.tag(inputs[i]);
        let y = times_ten(x);
        let ghost before = log@;
        log.record(epoch, y);
        proof {
            assert(inputs@.take(i + 1) =~= inputs@.take(i as int).push(x));
            assert(log@.map_values(|e: (u64, i32)| e.1) =~= before.map_values(
                |e: (u64, i32)| e.1,
            ).push(y));
        }
        let _ = feeder.advance(epoch + 1);
        i = i + 1;
    }
    proof {
        assert(inputs@.take(i as int) =~= inputs@);
    }
    Ok(log.extract())
}

} // verus!
