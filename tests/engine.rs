use std::collections::{HashMap, HashSet};

use epoch_agg::accumulate::{aggregate_by_key, combine_batch, measurement_group_key, Summary};
use epoch_agg::capture::{run_capture, run_linear_steps, square_plus_one, times_ten, CaptureLog};
use epoch_agg::daily::{
    aggregate_daily_users, date_key, insert_user, login_route_key, route_logins, run_daily_users,
    UserLoggedIn,
};
use epoch_agg::epoch::EpochController;
use epoch_agg::error::EngineError;
use epoch_agg::partition::{
    measurement_route_key, route_batch, route_values, worker_for, Measurement,
};
use epoch_agg::pool::SumPool;
use epoch_agg::probe::has_completed_through;

fn measurements() -> Vec<Measurement> {
    let mut v = Vec::new();
    for year in 2022..=2023u32 {
        for month in 1..=12u32 {
            for i in 0..3u32 {
                v.push((year, month, (2 * month + i) as u64));
            }
        }
    }
    v
}

fn merged(outs: &[HashMap<u64, Summary>]) -> HashMap<u64, Summary> {
    let mut all = HashMap::new();
    for m in outs {
        for (k, s) in m {
            assert!(all.insert(*k, *s).is_none(), "key {} emitted twice", k);
        }
    }
    all
}

#[test]
fn capture_result_stream_can_run() {
    let inputs: Vec<i32> = (0..10).collect();
    let rs = run_capture(&inputs, 4).unwrap();
    assert_eq!(vec![0, 10, 20, 30, 40, 50, 60, 70, 80, 90], rs);
}

#[test]
fn linear_steps_can_run() {
    let inputs: Vec<u64> = (0..10).collect();
    let outs = run_linear_steps(&inputs, 4).unwrap();
    assert_eq!(outs.len(), 4);
}

#[test]
fn accumulate_by_epoch_can_run() {
    let mut pool = SumPool::new(4).unwrap();
    let mut epoch = 0u64;
    for m in measurements() {
        pool.send(m);
        if m.2 == 2 * m.1 as u64 + 2 {
            epoch += 1;
            pool.advance(epoch).unwrap();
        }
    }
    assert_eq!(pool.outputs().len(), 24);
}

#[test]
fn dau_mau_network_can_run() {
    let mut evs: Vec<UserLoggedIn> = Vec::new();
    for month in 1..=3u32 {
        for day in 1..=5u32 {
            for user in 1..=3u32 {
                evs.push((user, (2024, month, day)));
            }
        }
    }
    let outs = run_daily_users(&evs, 4).unwrap();
    let days: usize = outs.iter().map(|m| m.len()).sum();
    assert_eq!(days, 15);
    for m in &outs {
        for users in m.values() {
            assert_eq!(users.len(), 3);
        }
    }
}

#[test]
fn repartitioning_gives_same_records() {
    let evs = measurements();
    let reference = aggregate_by_key(&evs);
    assert_eq!(reference.len(), 24);
    for n in [1usize, 2, 4, 8] {
        let mut pool = SumPool::new(n).unwrap();
        for m in &evs {
            pool.send(*m);
        }
        pool.advance(1).unwrap();
        let out = &pool.outputs()[0];
        assert_eq!(out.epoch, 0);
        assert_eq!(out.per_worker.len(), n);
        for (w, m) in out.per_worker.iter().enumerate() {
            for k in m.keys() {
                assert_eq!(*k as usize % n, w);
            }
        }
        assert_eq!(merged(&out.per_worker), reference);
    }
}

#[test]
fn month_sum_exact_values() {
    let evs = measurements();
    let r = aggregate_by_key(&evs);
    assert_eq!(r.get(&202201), Some(&(2022, 1, 9)));
    assert_eq!(r.get(&202312), Some(&(2023, 12, 75)));
    assert_eq!(r.get(&202213), None);
}

#[test]
fn one_epoch_sum_of_values() {
    let mut sum: Summary = (0, 0, 0);
    combine_batch(&mut sum, &vec![(2022, 1, 2), (2022, 1, 3), (2022, 1, 4)]);
    assert_eq!(sum, (2022, 1, 9));
}

#[test]
fn combine_batch_empty_keeps_summary() {
    let mut sum: Summary = (7, 8, 9);
    combine_batch(&mut sum, &vec![]);
    assert_eq!(sum, (7, 8, 9));
}

#[test]
fn combine_batch_largest_sum() {
    let mut sum: Summary = (0, 0, u64::MAX - 1);
    combine_batch(&mut sum, &vec![(1, 2, 1)]);
    assert_eq!(sum, (1, 2, u64::MAX));
}

#[test]
fn linear_steps_multiset() {
    let inputs: Vec<u64> = (0..10).collect();
    let outs = run_linear_steps(&inputs, 4).unwrap();
    for (w, out) in outs.iter().enumerate() {
        for y in out {
            let x = (0..10u64).find(|x| x * x + 1 == *y).unwrap();
            assert_eq!(x as usize % 4, w);
        }
    }
    let mut all: Vec<u64> = outs.into_iter().flatten().collect();
    all.sort();
    assert_eq!(all, vec![1, 2, 5, 10, 17, 26, 37, 50, 65, 82]);
}

#[test]
fn linear_steps_no_workers() {
    assert_eq!(run_linear_steps(&vec![1], 0), Err(EngineError::Configuration));
}

#[test]
fn capture_independent_of_worker_count() {
    let inputs: Vec<i32> = (0..10).collect();
    for n in [1usize, 2, 4, 8] {
        assert_eq!(run_capture(&inputs, n).unwrap(), vec![0, 10, 20, 30, 40, 50, 60, 70, 80, 90]);
    }
    assert_eq!(run_capture(&vec![], 3).unwrap(), Vec::<i32>::new());
    assert_eq!(run_capture(&inputs, 0), Err(EngineError::Configuration));
}

#[test]
fn capture_log_extracts_in_order() {
    let mut log: CaptureLog<i32> = CaptureLog::new();
    log.record(0, 5);
    log.record(0, 6);
    log.record(2, 7);
    assert_eq!(log.extract(), vec![5, 6, 7]);
}

#[test]
fn transforms_exact() {
    assert_eq!(square_plus_one(9), 82);
    assert_eq!(square_plus_one(0), 1);
    assert_eq!(times_ten(-3), -30);
    assert_eq!(times_ten(9), 90);
}

#[test]
fn three_users_one_day_one_record() {
    let evs: Vec<UserLoggedIn> = vec![(1, (2024, 1, 1)), (2, (2024, 1, 1)), (3, (2024, 1, 1))];
    let r = aggregate_daily_users(&evs);
    assert_eq!(r.len(), 1);
    let expected: HashSet<u32> = [1, 2, 3].into_iter().collect();
    assert_eq!(r.get(&20240101), Some(&expected));
    for n in [1usize, 2, 4, 8] {
        let outs = run_daily_users(&evs, n).unwrap();
        let records: usize = outs.iter().map(|m| m.len()).sum();
        assert_eq!(records, 1);
        assert_eq!(outs[20240101 % n].get(&20240101).map(|s| s.len()), Some(3));
    }
}

#[test]
fn repeated_login_is_idempotent() {
    let once: Vec<UserLoggedIn> = vec![(4, (2024, 2, 3))];
    let twice: Vec<UserLoggedIn> = vec![(4, (2024, 2, 3)), (4, (2024, 2, 3))];
    assert_eq!(aggregate_daily_users(&once), aggregate_daily_users(&twice));
    let mut set = HashSet::new();
    insert_user(&mut set, 9);
    insert_user(&mut set, 9);
    assert_eq!(set.len(), 1);
}

#[test]
fn daily_users_no_workers() {
    assert!(matches!(run_daily_users(&vec![], 0), Err(EngineError::Configuration)));
}

#[test]
fn keys_exact_values() {
    assert_eq!(measurement_route_key(&(2022, 3, 1)), 202203);
    assert_eq!(measurement_group_key(&(2022, 3, 1)), 202203);
    assert_eq!(measurement_route_key(&(u32::MAX, u32::MAX, 0)), u32::MAX as u64 * 101);
    assert_eq!(date_key(&(2024, 1, 5)), 20240105);
    assert_eq!(login_route_key(&(7, (2024, 12, 31))), 20241231);
    assert_eq!(worker_for(202203, 4), 3);
    assert_eq!(worker_for(5, 1), 0);
}

#[test]
fn routing_keeps_order_per_worker() {
    let evs: Vec<Measurement> = vec![(2022, 1, 1), (2022, 2, 2), (2022, 1, 3), (2022, 3, 4)];
    assert_eq!(route_batch(&evs, 2, 1), vec![(2022, 1, 1), (2022, 1, 3), (2022, 3, 4)]);
    assert_eq!(route_batch(&evs, 2, 0), vec![(2022, 2, 2)]);
    assert_eq!(route_values(&vec![3, 4, 7, 8], 4, 3), vec![3, 7]);
    let logins: Vec<UserLoggedIn> = vec![(1, (2024, 1, 1)), (2, (2024, 1, 2))];
    assert_eq!(route_logins(&logins, 2, 1), vec![(1, (2024, 1, 1))]);
}

#[test]
fn advance_must_move_forward() {
    let mut c = EpochController::new();
    assert_eq!(c.current(), 0);
    assert_eq!(c.advance(0), Err(EngineError::EpochOrder));
    assert_eq!(c.advance(3), Ok(()));
    assert_eq!(c.advance(3), Err(EngineError::EpochOrder));
    assert_eq!(c.advance(2), Err(EngineError::EpochOrder));
    assert_eq!(c.current(), 3);
    assert_eq!(c.tag(42), (3, 42));
}

#[test]
fn pool_rejects_no_workers_and_backward_epochs() {
    assert!(matches!(SumPool::new(0), Err(EngineError::Configuration)));
    let mut pool = SumPool::new(2).unwrap();
    pool.send((2022, 1, 5));
    assert_eq!(pool.advance(2), Ok(()));
    assert_eq!(pool.advance(1), Err(EngineError::EpochOrder));
    assert_eq!(pool.advance(2), Err(EngineError::EpochOrder));
    assert_eq!(pool.current_epoch(), 2);
    assert_eq!(pool.outputs().len(), 1);
    assert_eq!(pool.worker_count(), 2);
}

#[test]
fn probe_waits_for_advance() {
    let mut pool = SumPool::new(3).unwrap();
    assert!(!pool.has_completed_through(0));
    pool.send((2022, 1, 1));
    pool.advance(1).unwrap();
    assert!(pool.has_completed_through(0));
    assert!(!pool.has_completed_through(1));
    pool.advance(5).unwrap();
    assert!(pool.has_completed_through(4));
    assert!(!pool.has_completed_through(5));
    assert!(has_completed_through(&vec![3, 4], 2));
    assert!(!has_completed_through(&vec![3, 2], 2));
    assert!(has_completed_through(&vec![], 9));
}

#[test]
fn empty_epoch_emits_nothing() {
    let mut pool = SumPool::new(2).unwrap();
    pool.advance(1).unwrap();
    let out = &pool.outputs()[0];
    assert!(out.per_worker.iter().all(|m| m.is_empty()));
}
