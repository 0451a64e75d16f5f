use std::collections::{HashMap, HashSet};
use vstd::prelude::*;

use crate::error::EngineError;
use crate::partition::{owner, worker_for};

verus! {

broadcast use vstd::std_specs::hash::group_hash_axioms;

/// A user's identifier.
pub type UserId = u32;

/// A calendar date as `(year, month, day)`.
pub type LoginDate = (u32, u32, u32);

/// One login: the user and the date.
pub type UserLoggedIn = (UserId, LoginDate);

/// The key of a date, `year * 10000 + month * 100 + day`: it both routes a
/// login to its worker and groups logins by day.
pub open spec fn date_key_spec(d: LoginDate) -> u64 {
    (d.0 * 10000 + d.1 * 100 + d.2) as u64
}

/// The reference fold of logins: for each day key that occurs, the set of
/// distinct users seen on it.
pub open spec fn login_fold(evs: Seq<UserLoggedIn>) -> Map<u64, Set<UserId>>
    decreases evs.len(),
{
    if evs.len() == 0 {
        Map::empty()
    } else {
        let m = login_fold(evs.drop_last());
        let k = date_key_spec(evs.last().1);
        let prev = if m.contains_key(k) {
            m[k]
        } else {
            Set::empty()
        };
        m.insert(k, prev.insert(evs.last().0))
    }
}

/// The sets held by a map of hash sets, as mathematical sets.
pub open spec fn sets_view(m: Map<u64, HashSet<UserId>>) -> Map<u64, Set<UserId>> {
    Map::new(|k: u64| m.contains_key(k), |k: u64| m[k]@)
}

/// Day key of a date: `year * 10000 + month * 100 + day`.
pub fn date_key(d: &LoginDate) -> (r: u64)
    ensures
        r == date_key_spec(*d),
        r as int == d.0 * 10000 + d.1 * 100 + d.2,
{
    (d.0 as u64) * 10000 + (d.1 as u64) * 100 + (d.2 as u64)
}

/// Route key of a login: the key of its date.
pub fn login_route_key(e: &UserLoggedIn) -> (r: u64)
    ensures
        r == date_key_spec(e.1),
{
    date_key(&e.1)
}

/// Adds a user to a day's set; adding one already present changes nothing.
pub fn insert_user(set: &mut HashSet<UserId>, user: UserId)
    ensures
        final(set)@ == old(set)@.insert(user),
{
    set.insert(user);
}

/// Groups logins by day key and collects the distinct users of each day:
/// one entry per day, however many logins it had.
pub fn aggregate_daily_users(evs: &Vec<UserLoggedIn>) -> (r: HashMap<u64, HashSet<UserId>>)
    ensures
        sets_view(r@) == login_fold(evs@),
{
    let mut acc: HashMap<u64, HashSet<UserId>> = HashMap::new();
    let mut i: usize = 0;
    proof {
        assert(sets_view(acc@) =~= login_fold(evs@.take(0)));
    }
    while i < evs.len()
        invariant
            i <= evs@.len(),
            sets_view(acc@) == login_fold(evs@.take(i as int)),
        decreases evs@.len() - i,
    {
        let (user, date) = evs[i];
        let k = date_key(&date);
        let ghost before = acc@;
        proof {
            assert(evs@.take(i + 1).drop_last() =~= evs@.take(i as int));
        }
        let mut users: HashSet<UserId> = match acc.remove(&k) {
            Some(s) => s,
            None => HashSet::new(),
        };
        insert_user(&mut users, user);
        acc.insert(k, users);
        proof {
            assert(acc@ =~= before.insert(k, users));
            assert(sets_view(acc@) =~= login_fold(evs@.take(i + 1)));
        }
        i = i + 1;
    }
    proof {
        assert(evs@.take(i as int) =~= evs@);
    }
    acc
}

/// The logins of `evs` that a pool of `n` workers delivers to worker `w`,
/// in the order they were sent.
pub open spec fn route_filter_logins(evs: Seq<UserLoggedIn>, n: nat, w: nat) -> Seq<UserLoggedIn>
    decreases evs.len(),
{
    if evs.len() == 0 {
        Seq::empty()
    } else {
        let pre = route_filter_logins(evs.drop_last(), n, w);
        if owner(date_key_spec(evs.last().1), n) == w {
            pre.push(evs.last())
        } else {
            pre
        }
    }
}

/// The batch of `evs` that worker `w` of `worker_count` receives.
pub fn route_logins(evs: &Vec<UserLoggedIn>, worker_count: usize, w: usize) -> (r: Vec<UserLoggedIn>)
    requires
        worker_count > 0,
    ensures
        r@ == route_filter_logins(evs@, worker_count as nat, w as nat),
{
    let mut out: Vec<UserLoggedIn> = Vec::new();
    let mut i: usize = 0;
    while i < evs.len()
        invariant
            i <= evs@.len(),
            worker_count > 0,
            out@ == route_filter_logins(evs@.take(i as int), worker_count as nat, w as nat),
        decreases evs@.len() - i,
    {
        let e = evs[i];
        proof {
            assert(evs@.take(i + 1).drop_last() =~= evs@.take(i as int));
        }
        if worker_for(login_route_key(&e), worker_count) == w {
            out.push(e);
        }
        i = i + 1;
    }
    proof {
        assert(evs@.take(i as int) =~= evs@);
    }
    out
}

/// Runs the daily-users aggregation on `worker_count` workers: each login is
/// routed to the worker owning its day key, and each worker collects the
/// distinct users per day of the logins it received.
pub fn run_daily_users(evs: &Vec<UserLoggedIn>, worker_count: usize) -> (r: Result<
    Vec<HashMap<u64, HashSet<UserId>>>,
    EngineError,
>)
    ensures
        r is Err <==> worker_count == 0,
        r is Err ==> r == Err::<Vec<HashMap<u64, HashSet<UserId>>>, EngineError>(
            EngineError::Configuration,
        ),
        r matches Ok(outs) ==> outs@.len() == worker_count && forall|w: int|
            0 <= w < worker_count ==> sets_view((#[trigger] outs@[w])@) == login_fold(
                route_filter_logins(evs@, worker_count as nat, w as nat),
            ),
{
    if worker_count == 0 {
        return Err(EngineError::Configuration);
    }
    let mut outs: Vec<HashMap<u64, HashSet<UserId>>> = Vec::new();
    let mut w: usize = 0;
    while w < worker_count
        invariant
            w <= worker_count,
            worker_count > 0,
            outs@.len() == w,
            forall|j: int|
                0 <= j < w ==> sets_view((#[trigger] outs@[j])@) == login_fold(
                    route_filter_logins(evs@, worker_count as nat, j as nat),
                ),
        decreases worker_count - w,
    {
        let batch = route_logins(evs, worker_count, w);
        let out = aggregate_daily_users(&batch);
        outs.push(out);
        w = w + 1;
    }
    Ok(outs)
}

/// Routing logins to one worker keeps exactly the days that worker owns,
/// each with the same set of users as the whole stream gives.
proof fn lemma_route_login_fold(evs: Seq<UserLoggedIn>, n: nat, w: nat)
    requires
        n > 0,
    ensures
        login_fold(route_filter_logins(evs, n, w)) == login_fold(evs).restrict(
            Set::new(|k: u64| owner(k, n) == w),
        ),
    decreases evs.len(),
{
    let owned = Set::new(|k: u64| owner(k, n) == w);
    if evs.len() == 0 {
        assert(login_fold(evs).restrict(owned) =~= Map::empty());
    } else {
        let pre = route_filter_logins(evs.drop_last(), n, w);
        let e = evs.last();
        lemma_route_login_fold(evs.drop_last(), n, w);
        if owner(date_key_spec(e.1), n) == w {
            assert(pre.push(e).drop_last() =~= pre);
        }
        assert(login_fold(route_filter_logins(evs, n, w)) =~= login_fold(evs).restrict(owned));
    }
}

/// One record per day: whatever the number of workers `n`, the users of day
/// key `k` are collected by exactly one worker, `k mod n`, into the same set
/// as the single-threaded fold gives; no other worker holds that day.
pub proof fn lemma_one_record_per_day(evs: Seq<UserLoggedIn>, n: nat, k: u64)
    requires
        n > 0,
    ensures
        forall|w: nat|
            w < n && w != owner(k, n) ==> !(#[trigger] login_fold(
                route_filter_logins(evs, n, w),
            )).contains_key(k),
        login_fold(route_filter_logins(evs, n, owner(k, n))).contains_key(k) == login_fold(
            evs,
        ).contains_key(k),
        login_fold(evs).contains_key(k) ==> login_fold(route_filter_logins(evs, n, owner(k, n)))[k]
            == login_fold(evs)[k],
{
    lemma_route_login_fold(evs, n, owner(k, n));
    assert forall|w: nat| w < n && w != owner(k, n) implies !(#[trigger] login_fold(
        route_filter_logins(evs, n, w),
    )).contains_key(k) by {
        lemma_route_login_fold(evs, n, w);
    }
}

/// Idempotence: a login repeated at once leaves every day's set as the
/// single login did.
pub proof fn lemma_repeat_login_idempotent(evs: Seq<UserLoggedIn>, e: UserLoggedIn)
    ensures
        login_fold(evs.push(e).push(e)) == login_fold(evs.push(e)),
{
    let once = evs.push(e);
    let twice = once.push(e);
    assert(twice.drop_last() =~= once);
    assert(once.drop_last() =~= evs);
    let k = date_key_spec(e.1);
    assert(login_fold(once)[k].insert(e.0) =~= login_fold(once)[k]);
    assert(login_fold(twice) =~= login_fold(once));
}

} // verus!
