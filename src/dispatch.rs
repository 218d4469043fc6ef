//! Choosing the backend for one request: a scan that probes endpoints in
//! round-robin order, at most once each, and serves the first healthy one.
//! The caller performs each probe outside any lock on the pool and reports
//! its verdict back.
use vstd::prelude::*;

use crate::endpoint::{is_valid_endpoint, valid_endpoint};
use crate::pool::{rotate, views, BackendPool, PoolError};
use crate::rotation::{
    lemma_full_cycle_restores, lemma_rotate_n_wf, lemma_selection_order, rotate_n,
};

verus! {

/// Why a request could not be given a backend.
#[derive(Clone, Copy, Debug, PartialEq, Eq, Structural)]
pub enum DispatchError {
    /// No endpoint is registered.
    Empty,
    /// Every endpoint probed was unhealthy.
    NoHealthyBackend,
}

/// Why a registration was refused.
#[derive(Clone, Copy, Debug, PartialEq, Eq, Structural)]
pub enum RegisterError {
    /// The endpoint lacks a scheme or a host.
    InvalidEndpoint,
    /// The endpoint is already registered.
    DuplicateEndpoint,
}

/// What the caller does next for the request.
#[derive(Debug, PartialEq, Eq)]
pub enum ScanStep {
    /// Probe this endpoint and report the verdict.
    Probe(String),
    /// Send the request to this endpoint, which was found healthy.
    Serve(String),
    /// Answer that no backend is available.
    Fail(DispatchError),
}

/// Progress of one request's scan: how many endpoints were probed, out of
/// how many the pool held when the scan began.
#[derive(Clone, Copy)]
pub struct ProbeScan {
    probed: usize,
    limit: usize,
    start: Ghost<Seq<Seq<char>>>,
}

impl ProbeScan {
    /// How many endpoints the scan has asked to probe.
    pub closed spec fn spec_probed(&self) -> nat {
        self.probed as nat
    }

    /// How many endpoints the pool held when the scan began.
    pub closed spec fn spec_limit(&self) -> nat {
        self.limit as nat
    }

    /// The pool's contents when the scan began.
    pub closed spec fn spec_start(&self) -> Seq<Seq<char>> {
        self.start@
    }

    /// Nothing but this scan has changed `pool` since the scan began: each
    /// probe so far has rotated it once.
    pub open spec fn undisturbed(&self, pool: Seq<Seq<char>>) -> bool {
        &&& self.spec_start().len() == self.spec_limit()
        &&& self.spec_start().no_duplicates()
        &&& pool == rotate_n(self.spec_start(), self.spec_probed())
    }

    /// At least one and never more than the limit have been probed.
    pub open spec fn wf(&self) -> bool {
        1 <= self.spec_probed() <= self.spec_limit()
    }

    /// The number of endpoints probed so far.
    pub fn probed(&self) -> (r: usize)
        ensures
            r == self.spec_probed(),
    {
        self.probed
    }

    /// The pool's size when the scan began: no more probes than this.
    pub fn limit(&self) -> (r: usize)
        ensures
            r == self.spec_limit(),
    {
        self.limit
    }
}

/// Begins the scan for one request: the endpoint at the front of the pool is
/// the first to probe, and it moves to the back.
pub fn start_dispatch(pool: &mut BackendPool) -> (r: (ProbeScan, ScanStep))
    requires
        old(pool).wf(),
    ensures
        final(pool).wf(),
        final(pool)@ == rotate(old(pool)@),
        old(pool)@.len() == 0 ==> r.1 == ScanStep::Fail(DispatchError::Empty),
        old(pool)@.len() > 0 ==> r.1 is Probe && r.1->Probe_0@ == old(pool)@[0] && r.0.wf()
            && r.0.spec_probed() == 1 && r.0.spec_limit() == old(pool)@.len() && r.0.spec_start()
            == old(pool)@ && r.0.undisturbed(final(pool)@),
{
    let n = pool.size();
    let ghost s = pool@;
    proof {
        lemma_rotate_n_wf(s, 1);
    }
    match pool.select_next() {
        Err(_) => (
            ProbeScan { probed: 0, limit: 0, start: Ghost(s) },
            ScanStep::Fail(DispatchError::Empty),
        ),
        Ok(e) => (ProbeScan { probed: 1, limit: n, start: Ghost(s) }, ScanStep::Probe(e)),
    }
}

/// Takes the verdict on `candidate`, the endpoint the last step asked to
/// probe. A healthy one is served. Otherwise the next endpoint is probed,
/// unless as many have been probed as the pool held when the scan began.
pub fn after_probe(
    pool: &mut BackendPool,
    scan: &mut ProbeScan,
    candidate: String,
    healthy: bool,
) -> (r: ScanStep)
    requires
        old(scan).wf(),
        old(pool).wf(),
    ensures
        final(pool).wf(),
        final(scan).spec_start() == old(scan).spec_start(),
        old(scan).undisturbed(old(pool)@) ==> final(scan).undisturbed(final(pool)@),
        old(scan).undisturbed(old(pool)@) && r == ScanStep::Fail(DispatchError::NoHealthyBackend)
            ==> final(pool)@ == old(scan).spec_start(),
        old(scan).undisturbed(old(pool)@) && r is Probe ==> r->Probe_0@ == old(
            scan,
        ).spec_start()[old(scan).spec_probed() as int],
        healthy ==> r == ScanStep::Serve(candidate) && final(pool)@ == old(pool)@ && *final(scan)
            == *old(scan),
        !healthy && old(scan).spec_probed() == old(scan).spec_limit() ==> r == ScanStep::Fail(
            DispatchError::NoHealthyBackend,
        ) && final(pool)@ == old(pool)@ && *final(scan) == *old(scan),
        !healthy && old(scan).spec_probed() < old(scan).spec_limit() ==> final(pool)@ == rotate(
            old(pool)@,
        ) && (if old(pool)@.len() == 0 {
            r == ScanStep::Fail(DispatchError::Empty) && *final(scan) == *old(scan)
        } else {
            r is Probe && r->Probe_0@ == old(pool)@[0] && final(scan).spec_probed()
                == old(scan).spec_probed() + 1 && final(scan).spec_limit()
                == old(scan).spec_limit()
        }),
        final(scan).wf(),
{
    if healthy {
        return ScanStep::Serve(candidate);
    }
    if scan.probed >= scan.limit {
        proof {
            if scan.undisturbed(pool@) {
                lemma_full_cycle_restores(scan.spec_start());
            }
        }
        return ScanStep::Fail(DispatchError::NoHealthyBackend);
    }
    proof {
        lemma_rotate_n_wf(pool@, 1);
        if scan.undisturbed(pool@) {
            let s = scan.spec_start();
            lemma_selection_order(s, scan.spec_probed());
            vstd::arithmetic::div_mod::lemma_small_mod(scan.spec_probed(), s.len());
        }
    }
    match pool.select_next() {
        Err(_) => ScanStep::Fail(DispatchError::Empty),
        Ok(e) => {
            scan.probed = scan.probed + 1;
            ScanStep::Probe(e)
        },
    }
}

/// A scan over a pool of `k` distinct endpoints that no one else changes
/// probes each of them once, in pool order, and when all are unhealthy it
/// stops after `k` probes with the pool as it was: probe `i` rotates the pool
/// `i` times before it, and `k` rotations restore it.
pub proof fn lemma_scan_probes_each_once(s: Seq<Seq<char>>)
    requires
        s.no_duplicates(),
    ensures
        forall|i: nat| i < s.len() ==> (#[trigger] rotate_n(s, i))[0] == s[i as int],
        forall|i: nat, j: nat|
            i < j < s.len() ==> (#[trigger] rotate_n(s, i))[0] != (#[trigger] rotate_n(s, j))[0],
        rotate_n(s, s.len()) == s,
{
    assert forall|i: nat| i < s.len() implies (#[trigger] rotate_n(s, i))[0] == s[i as int] by {
        lemma_selection_order(s, i);
        vstd::arithmetic::div_mod::lemma_small_mod(i, s.len());
    }
    lemma_full_cycle_restores(s);
}

/// Registers `endpoint` after checking its form; on success returns every
/// registered endpoint in rotation order.
pub fn register_backend(pool: &mut BackendPool, endpoint: String) -> (r: Result<
    Vec<String>,
    RegisterError,
>)
    requires
        old(pool).wf(),
    ensures
        final(pool).wf(),
        !valid_endpoint(endpoint@) ==> r == Err::<Vec<String>, RegisterError>(
            RegisterError::InvalidEndpoint,
        ) && final(pool)@ == old(pool)@,
        valid_endpoint(endpoint@) && old(pool)@.contains(endpoint@) ==> r == Err::<
            Vec<String>,
            RegisterError,
        >(RegisterError::DuplicateEndpoint) && final(pool)@ == old(pool)@,
        valid_endpoint(endpoint@) && !old(pool)@.contains(endpoint@) ==> r is Ok && final(pool)@
            == old(pool)@.push(endpoint@) && views(r->Ok_0@) == final(pool)@,
{
    if !is_valid_endpoint(endpoint.as_str()) {
        return Err(RegisterError::InvalidEndpoint);
    }
    match pool.register(endpoint) {
        Ok(members) => Ok(members),
        Err(_) => Err(RegisterError::DuplicateEndpoint),
    }
}

} // verus!
