use vstd::prelude::*;

verus! {

/// A measurement: `(year, month, value)`.
pub type Measurement = (u32, u32, u64);

/// The route key of a measurement: its year and month as one number.
pub open spec fn measurement_route_spec(m: Measurement) -> u64 {
    (m.0 * 100 + m.1) as u64
}

/// The worker that owns route key `key` in a pool of `n` workers.
pub open spec fn owner(key: u64, n: nat) -> nat {
    (key as nat) % n
}

/// The measurements of `evs` that a pool of `n` workers delivers to worker
/// `w`, in the order they were sent.
pub open spec fn route_filter(evs: Seq<Measurement>, n: nat, w: nat) -> Seq<Measurement>
    decreases evs.len(),
{
    if evs.len() == 0 {
        Seq::empty()
    } else {
        let pre = route_filter(evs.drop_last(), n, w);
        if owner(measurement_route_spec(evs.last()), n) == w {
            pre.push(evs.last())
        } else {
            pre
        }
    }
}

/// The values of `xs` that a pool of `n` workers routing by the value itself
/// delivers to worker `w`, in the order they were sent.
pub open spec fn route_filter_values(xs: Seq<u64>, n: nat, w: nat) -> Seq<u64>
    decreases xs.len(),
{
    if xs.len() == 0 {
        Seq::empty()
    } else {
        let pre = route_filter_values(xs.drop_last(), n, w);
        if owner(xs.last(), n) == w {
            pre.push(xs.last())
        } else {
            pre
        }
    }
}

/// Route key of a measurement: `year * 100 + month`.
pub fn measurement_route_key(m: &Measurement) -> (r: u64)
    ensures
        r == measurement_route_spec(*m),
        r as int == m.0 * 100 + m.1,
{
    (m.0 as u64) * 100 + (m.1 as u64)
}

/// The worker, in `[0, worker_count)`, that owns route key `key`.
pub fn worker_for(key: u64, worker_count: usize) -> (r: usize)
    requires
        worker_count > 0,
    ensures
        r as nat == owner(key, worker_count as nat),
        r < worker_count,
{
    (key % (worker_count as u64)) as usize
}

/// The batch of `evs` that worker `w` of `worker_count` receives.
pub fn route_batch(evs: &Vec<Measurement>, worker_count: usize, w: usize) -> (r: Vec<Measurement>)
    requires
        worker_count > 0,
    ensures
        r@ == route_filter(evs@, worker_count as nat, w as nat),
{
    let mut out: Vec<Measurement> = Vec::new();
    let mut i: usize = 0;
    while i < evs.len()
        invariant
            i <= evs@.len(),
            worker_count > 0,
            out@ == route_filter(evs@.take(i as int), worker_count as nat, w as nat),
        decreases evs@.len() - i,
    {
        let m = evs[i];
        proof {
            assert(evs@.take(i + 1).drop_last() =~= evs@.take(i as int));
        }
        if worker_for(measurement_route_key(&m), worker_count) == w {
            out.push(m);
        }
        i = i + 1;
    }
    proof {
        assert(evs@.take(i as int) =~= evs@);
    }
    out
}

/// The batch of `xs` that worker `w` of `worker_count` receives when each
/// value is its own route key.
pub fn route_values(xs: &Vec<u64>, worker_count: usize, w: usize) -> (r: Vec<u64>)
    requires
        worker_count > 0,
    ensures
        r@ == route_filter_values(xs@, worker_count as nat, w as nat),
{
    let mut out: Vec<u64> = Vec::new();
    let mut i: usize = 0;
    while i < xs.len()
        invariant
            i <= xs@.len(),
            worker_count > 0,
            out@ == route_filter_values(xs@.take(i as int), worker_count as nat, w as nat),
        decreases xs@.len() - i,
    {
        let x = xs[i];
        proof {
            assert(xs@.take(i + 1).drop_last() =~= xs@.take(i as int));
        }
        if worker_for(x, worker_count) == w {
            out.push(x);
        }
        i = i + 1;
    }
    proof {
        assert(xs@.take(i as int) =~= xs@);
    }
    out
}

} // verus!
