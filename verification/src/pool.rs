use vstd::prelude::*;
use crate::endpoint::Endpoint;

verus! {

/// The health of a pooled connection. A degraded or dead connection is
/// replaced by a fresh one on its endpoint's next use; `evict_idle` removes
/// dead connections outright.
#[derive(Clone, Copy, PartialEq, Eq, Structural, Debug)]
pub enum HealthState {
    Healthy,
    Degraded,
    Dead,
}

/// One pooled connection. The handle is the pool's identity for the
/// underlying transport connection; the caller maps handles to sockets.
#[derive(Clone, Copy, PartialEq, Eq, Structural, Debug)]
pub struct PooledConnection {
    pub endpoint: Endpoint,
    pub handle: u64,
    pub last_used: u64,
    pub health: HealthState,
}

/// No two entries share an endpoint: at most one live connection per
/// distinct endpoint at a time.
pub open spec fn distinct_endpoints(s: Seq<PooledConnection>) -> bool {
    forall|i: int, j: int| 0 <= i < j < s.len() ==> s[i].endpoint != s[j].endpoint
}

/// No two entries share a handle.
pub open spec fn distinct_handles(s: Seq<PooledConnection>) -> bool {
    forall|i: int, j: int| 0 <= i < j < s.len() ==> s[i].handle != s[j].handle
}

/// Every handle in the pool lies below `bound`.
pub open spec fn handles_below(s: Seq<PooledConnection>, bound: u64) -> bool {
    forall|i: int| 0 <= i < s.len() ==> s[i].handle < bound
}

/// Whether some entry is for endpoint `e`.
pub open spec fn has_conn_for(s: Seq<PooledConnection>, e: Endpoint) -> bool {
    exists|i: int| 0 <= i < s.len() && s[i].endpoint == e
}

/// The index of the entry for endpoint `e` (unique when endpoints are distinct).
pub open spec fn conn_index(s: Seq<PooledConnection>, e: Endpoint) -> int {
    choose|i: int| 0 <= i < s.len() && s[i].endpoint == e
}

/// Whether some entry is a healthy connection for endpoint `e`.
pub open spec fn has_healthy_conn_for(s: Seq<PooledConnection>, e: Endpoint) -> bool {
    exists|i: int| 0 <= i < s.len() && s[i].endpoint == e && s[i].health is Healthy
}

/// Whether some entry carries handle `h`.
pub open spec fn has_handle(s: Seq<PooledConnection>, h: u64) -> bool {
    exists|i: int| 0 <= i < s.len() && s[i].handle == h
}

/// The index of the entry with handle `h` (unique when handles are distinct).
pub open spec fn handle_index(s: Seq<PooledConnection>, h: u64) -> int {
    choose|i: int| 0 <= i < s.len() && s[i].handle == h
}

/// Law: a pool with distinct endpoints holds at most one connection per
/// endpoint — two entries for the same endpoint are one and the same. With
/// pool access serialized per endpoint, concurrent `get_or_create` calls for
/// one endpoint therefore coalesce onto a single underlying connection.
pub proof fn lemma_one_connection_per_endpoint(
    s: Seq<PooledConnection>,
    e: Endpoint,
    i: int,
    j: int,
)
    requires
        distinct_endpoints(s),
        0 <= i < s.len(),
        0 <= j < s.len(),
        s[i].endpoint == e,
        s[j].endpoint == e,
    ensures
        i == j,
{
}

/// The entry for endpoint `e` is exactly the one at `conn_index`.
pub proof fn lemma_conn_index_unique(s: Seq<PooledConnection>, e: Endpoint, k: int)
    requires
        distinct_endpoints(s),
        0 <= k < s.len(),
        s[k].endpoint == e,
    ensures
        has_conn_for(s, e),
        conn_index(s, e) == k,
{
    assert(has_conn_for(s, e));
    let i = conn_index(s, e);
    assert(0 <= i < s.len() && s[i].endpoint == e);
    lemma_one_connection_per_endpoint(s, e, i, k);
}

/// The entry with handle `h` is exactly the one at `handle_index`.
pub proof fn lemma_handle_index_unique(s: Seq<PooledConnection>, h: u64, k: int)
    requires
        distinct_handles(s),
        0 <= k < s.len(),
        s[k].handle == h,
    ensures
        has_handle(s, h),
        handle_index(s, h) == k,
{
    assert(has_handle(s, h));
    let i = handle_index(s, h);
    assert(0 <= i < s.len() && s[i].handle == h);
}

/// Maintains at most one transport connection per distinct endpoint, creates
/// them lazily on first use, and replaces unhealthy ones on their endpoint's
/// next use. The pool itself performs no network work: it decides, per
/// endpoint, whether the existing connection is reused or a new handle is
/// issued, and the caller establishes the transport behind a fresh handle.
pub struct ConnectionPool {
    conns: Vec<PooledConnection>,
    next_handle: u64,
}

impl ConnectionPool {
    /// The pool's entries, in insertion order.
    pub closed spec fn view(&self) -> Seq<PooledConnection> {
        self.conns@
    }

    /// The handle the next created connection will receive.
    pub closed spec fn next_handle_spec(&self) -> u64 {
        self.next_handle
    }

    /// Well-formed: one entry per endpoint, one entry per handle, and every
    /// issued handle lies below the next one.
    pub open spec fn wf(&self) -> bool {
        &&& distinct_endpoints(self.view())
        &&& distinct_handles(self.view())
        &&& handles_below(self.view(), self.next_handle_spec())
    }

    /// Whether a fresh handle can still be issued.
    pub open spec fn handle_space_left(&self) -> bool {
        self.next_handle_spec() < u64::MAX
    }

    /// Creates an empty pool.
    pub fn new() -> (p: ConnectionPool)
        ensures
            p.wf(),
            p.view() == Seq::<PooledConnection>::empty(),
            p.next_handle_spec() == 0,
    {
        ConnectionPool { conns: Vec::new(), next_handle: 0 }
    }

    /// How many connections the pool holds.
    pub fn len(&self) -> (n: usize)
        ensures
            n == self.view().len(),
    {
        self.conns.len()
    }

    /// Whether a fresh handle can still be issued.
    pub fn can_create(&self) -> (r: bool)
        ensures
            r == self.handle_space_left(),
    {
        self.next_handle < u64::MAX
    }

    /// Returns the connection for `endpoint`, reusing the existing one when
    /// it is healthy and otherwise creating a fresh one (replacing a
    /// degraded or dead entry in place). Returns the connection's handle and
    /// whether an underlying connection was created. Creation is idempotent:
    /// while a healthy connection for the endpoint exists, no call for it
    /// creates another one.
    pub fn get_or_create(&mut self, endpoint: Endpoint, now: u64) -> (r: (u64, bool))
        requires
            old(self).wf(),
            old(self).handle_space_left(),
        ensures
            final(self).wf(),
            r.1 == !has_healthy_conn_for(old(self).view(), endpoint),
            has_healthy_conn_for(final(self).view(), endpoint),
            conn_index(final(self).view(), endpoint) == if has_conn_for(old(self).view(), endpoint) {
                conn_index(old(self).view(), endpoint)
            } else {
                old(self).view().len() as int
            },
            final(self).view()[conn_index(final(self).view(), endpoint)] == (PooledConnection {
                endpoint,
                handle: r.0,
                last_used: now,
                health: HealthState::Healthy,
            }),
            !r.1 ==> final(self).view() == old(self).view().update(
                conn_index(old(self).view(), endpoint),
                (PooledConnection {
                    endpoint,
                    handle: r.0,
                    last_used: now,
                    health: HealthState::Healthy,
                }),
            ) && r.0 == old(self).view()[conn_index(old(self).view(), endpoint)].handle
                && final(self).next_handle_spec() == old(self).next_handle_spec(),
            r.1 ==> r.0 == old(self).next_handle_spec()
                && final(self).next_handle_spec() == old(self).next_handle_spec() + 1,
            r.1 && has_conn_for(old(self).view(), endpoint) ==> final(self).view() == old(
                self,
            ).view().update(
                conn_index(old(self).view(), endpoint),
                (PooledConnection {
                    endpoint,
                    handle: r.0,
                    last_used: now,
                    health: HealthState::Healthy,
                }),
            ),
            r.1 && !has_conn_for(old(self).view(), endpoint) ==> final(self).view() == old(
                self,
            ).view().push(
                (PooledConnection {
                    endpoint,
                    handle: r.0,
                    last_used: now,
                    health: HealthState::Healthy,
                }),
            ),
    {
        let found = find_endpoint(&self.conns, endpoint);
        match found {
            Some(k) => {
                proof {
                    lemma_conn_index_unique(self.conns@, endpoint, k as int);
                }
                let existing = self.conns[k];
                if existing.health == HealthState::Healthy {
                    let updated = PooledConnection {
                        endpoint,
                        handle: existing.handle,
                        last_used: now,
                        health: HealthState::Healthy,
                    };
                    self.conns[k] = updated;
                    proof {
                        lemma_conn_index_unique(self.conns@, endpoint, k as int);
                        assert(has_healthy_conn_for(old(self).view(), endpoint));
                        assert(has_healthy_conn_for(self.conns@, endpoint));
                    }
                    (updated.handle, false)
                } else {
                    let handle = self.next_handle;
                    let created = PooledConnection {
                        endpoint,
                        handle,
                        last_used: now,
                        health: HealthState::Healthy,
                    };
                    self.conns[k] = created;
                    self.next_handle = self.next_handle + 1;
                    proof {
                        lemma_conn_index_unique(self.conns@, endpoint, k as int);
                        assert(!has_healthy_conn_for(old(self).view(), endpoint)) by {
                            if has_healthy_conn_for(old(self).view(), endpoint) {
                                let i = choose|i: int|
                                    0 <= i < old(self).view().len()
                                        && old(self).view()[i].endpoint == endpoint && old(
                                        self,
                                    ).view()[i].health is Healthy;
                                lemma_one_connection_per_endpoint(
                                    old(self).view(),
                                    endpoint,
                                    i,
                                    k as int,
                                );
                            }
                        }
                        assert(has_healthy_conn_for(self.conns@, endpoint));
                    }
                    (handle, true)
                }
            },
            None => {
                let handle = self.next_handle;
                let created = PooledConnection {
                    endpoint,
                    handle,
                    last_used: now,
                    health: HealthState::Healthy,
                };
                self.conns.push(created);
                self.next_handle = self.next_handle + 1;
                proof {
                    let v = old(self).view();
                    assert(!has_healthy_conn_for(v, endpoint));
                    lemma_conn_index_unique(self.conns@, endpoint, v.len() as int);
                    assert(has_healthy_conn_for(self.conns@, endpoint));
                }
                (handle, true)
            },
        }
    }

    /// Demotes the connection with handle `handle` to degraded, so that its
    /// endpoint's next use replaces it. Returns whether the handle was found;
    /// an unknown handle leaves the pool unchanged.
    pub fn mark_unhealthy(&mut self, handle: u64) -> (found: bool)
        requires
            old(self).wf(),
        ensures
            final(self).wf(),
            final(self).next_handle_spec() == old(self).next_handle_spec(),
            found == has_handle(old(self).view(), handle),
            found ==> final(self).view() == old(self).view().update(
                handle_index(old(self).view(), handle),
                (PooledConnection {
                    health: HealthState::Degraded,
                    ..old(self).view()[handle_index(old(self).view(), handle)]
                }),
            ),
            !found ==> final(self).view() == old(self).view(),
    {
        self.set_health(handle, HealthState::Degraded)
    }

    /// Marks the connection with handle `handle` dead, so that it is never
    /// reused and is evicted or replaced. Returns whether the handle was
    /// found; an unknown handle leaves the pool unchanged.
    pub fn mark_dead(&mut self, handle: u64) -> (found: bool)
        requires
            old(self).wf(),
        ensures
            final(self).wf(),
            final(self).next_handle_spec() == old(self).next_handle_spec(),
            found == has_handle(old(self).view(), handle),
            found ==> final(self).view() == old(self).view().update(
                handle_index(old(self).view(), handle),
                (PooledConnection {
                    health: HealthState::Dead,
                    ..old(self).view()[handle_index(old(self).view(), handle)]
                }),
            ),
            !found ==> final(self).view() == old(self).view(),
    {
        self.set_health(handle, HealthState::Dead)
    }

    /// Sets the health of the connection with handle `handle`.
    fn set_health(&mut self, handle: u64, health: HealthState) -> (found: bool)
        requires
            old(self).wf(),
        ensures
            final(self).wf(),
            final(self).next_handle_spec() == old(self).next_handle_spec(),
            found == has_handle(old(self).view(), handle),
            found ==> final(self).view() == old(self).view().update(
                handle_index(old(self).view(), handle),
                (PooledConnection {
                    health,
                    ..old(self).view()[handle_index(old(self).view(), handle)]
                }),
            ),
            !found ==> final(self).view() == old(self).view(),
    {
        let mut i: usize = 0;
        while i < self.conns.len()
            invariant
                0 <= i <= self.conns@.len(),
                old(self).wf(),
                self.conns@ == old(self).conns@,
                self.next_handle == old(self).next_handle,
                forall|k: int| 0 <= k < i ==> self.conns@[k].handle != handle,
            decreases self.conns@.len() - i,
        {
            if self.conns[i].handle == handle {
                proof {
                    lemma_handle_index_unique(self.conns@, handle, i as int);
                }
                let existing = self.conns[i];
                let updated = PooledConnection {
                    endpoint: existing.endpoint,
                    handle: existing.handle,
                    last_used: existing.last_used,
                    health,
                };
                self.conns[i] = updated;
                return true;
            }
            i = i + 1;
        }
        proof {
            assert(!has_handle(self.conns@, handle));
        }
        false
    }
}

/// Whether `evict_idle` keeps connection `c` at time `now`: dead
/// connections leave, and so do those unused for longer than `max_age`.
pub open spec fn keeps(c: PooledConnection, max_age: u64, now: u64) -> bool {
    !(c.health is Dead) && now - c.last_used <= max_age
}

/// The entries of `s` that `evict_idle` keeps, in unchanged order.
pub open spec fn evict_kept(s: Seq<PooledConnection>, max_age: u64, now: u64) -> Seq<
    PooledConnection,
>
    decreases s.len(),
{
    if s.len() == 0 {
        Seq::empty()
    } else {
        let rest = evict_kept(s.drop_last(), max_age, now);
        if keeps(s.last(), max_age, now) {
            rest.push(s.last())
        } else {
            rest
        }
    }
}

/// Every kept entry is one of the entries of `s`.
proof fn lemma_evict_kept_members(s: Seq<PooledConnection>, max_age: u64, now: u64)
    ensures
        forall|x: PooledConnection| #[trigger]
            evict_kept(s, max_age, now).contains(x) ==> s.contains(x),
    decreases s.len(),
{
    if s.len() > 0 {
        lemma_evict_kept_members(s.drop_last(), max_age, now);
        let f = evict_kept(s, max_age, now);
        let rest = evict_kept(s.drop_last(), max_age, now);
        assert forall|x: PooledConnection| #[trigger] f.contains(x) implies s.contains(x) by {
            let j = choose|j: int| 0 <= j < f.len() && f[j] == x;
            if j < rest.len() {
                assert(rest.contains(x));
                let i = choose|i: int| 0 <= i < s.drop_last().len() && s.drop_last()[i] == x;
                assert(s[i] == x);
            } else {
                assert(x == s.last());
                assert(s[s.len() - 1] == x);
            }
        }
    }
}

/// Eviction keeps endpoints and handles distinct and keeps every handle
/// below `bound`.
proof fn lemma_evict_kept_wf(s: Seq<PooledConnection>, max_age: u64, now: u64, bound: u64)
    requires
        distinct_endpoints(s),
        distinct_handles(s),
        handles_below(s, bound),
    ensures
        distinct_endpoints(evict_kept(s, max_age, now)),
        distinct_handles(evict_kept(s, max_age, now)),
        handles_below(evict_kept(s, max_age, now), bound),
    decreases s.len(),
{
    if s.len() > 0 {
        let s0 = s.drop_last();
        assert(distinct_endpoints(s0) && distinct_handles(s0) && handles_below(s0, bound));
        lemma_evict_kept_wf(s0, max_age, now, bound);
        lemma_evict_kept_members(s0, max_age, now);
        let rest = evict_kept(s0, max_age, now);
        let f = evict_kept(s, max_age, now);
        if keeps(s.last(), max_age, now) {
            assert(f == rest.push(s.last()));
            assert forall|i: int, j: int| 0 <= i < j < f.len() implies f[i].endpoint
                != f[j].endpoint && f[i].handle != f[j].handle by {
                if j == f.len() - 1 {
                    assert(f[j] == s.last());
                    assert(rest.contains(rest[i]));
                    assert(s0.contains(rest[i]));
                    let k = choose|k: int| 0 <= k < s0.len() && s0[k] == rest[i];
                    assert(s[k] == rest[i]);
                    assert(s[k].endpoint != s[s.len() - 1].endpoint);
                    assert(s[k].handle != s[s.len() - 1].handle);
                } else {
                    assert(f[i] == rest[i] && f[j] == rest[j]);
                }
            }
            assert forall|i: int| 0 <= i < f.len() implies f[i].handle < bound by {
                if i == f.len() - 1 {
                    assert(f[i] == s.last());
                    assert(s[s.len() - 1].handle < bound);
                } else {
                    assert(f[i] == rest[i]);
                }
            }
        }
    }
}

impl ConnectionPool {
    /// Removes every dead connection and every connection unused for longer
    /// than `max_age` before `now`; the remaining entries keep their order,
    /// handles and health. Returns how many connections were removed.
    pub fn evict_idle(&mut self, max_age: u64, now: u64) -> (removed: usize)
        requires
            old(self).wf(),
        ensures
            final(self).wf(),
            final(self).next_handle_spec() == old(self).next_handle_spec(),
            final(self).view() == evict_kept(old(self).view(), max_age, now),
            removed == old(self).view().len() - final(self).view().len(),
    {
        let ghost v = self.conns@;
        let mut kept: Vec<PooledConnection> = Vec::new();
        let mut i: usize = 0;
        assert(kept@ =~= evict_kept(v.take(0), max_age, now));
        while i < self.conns.len()
            invariant
                0 <= i <= self.conns@.len(),
                old(self).wf(),
                self.conns@ == old(self).conns@,
                self.next_handle == old(self).next_handle,
                v == self.conns@,
                kept@ == evict_kept(v.take(i as int), max_age, now),
                kept@.len() <= i,
            decreases self.conns@.len() - i,
        {
            let c = self.conns[i];
            if !(c.health == HealthState::Dead) && (c.last_used >= now || now - c.last_used
                <= max_age) {
                kept.push(c);
            }
            proof {
                assert(v.take(i + 1).drop_last() =~= v.take(i as int));
                assert(v.take(i + 1).last() == v[i as int]);
            }
            i = i + 1;
        }
        proof {
            assert(v.take(v.len() as int) =~= v);
            lemma_evict_kept_wf(v, max_age, now, self.next_handle);
        }
        let removed = self.conns.len() - kept.len();
        self.conns = kept;
        removed
    }
}

/// Finds the entry for endpoint `e`, if any.
fn find_endpoint(conns: &Vec<PooledConnection>, e: Endpoint) -> (r: Option<usize>)
    ensures
        match r {
            Some(k) => 0 <= k < conns@.len() && conns@[k as int].endpoint == e,
            None => !has_conn_for(conns@, e),
        },
{
    let mut i: usize = 0;
    while i < conns.len()
        invariant
            0 <= i <= conns@.len(),
            forall|k: int| 0 <= k < i ==> conns@[k].endpoint != e,
        decreases conns@.len() - i,
    {
        if conns[i].endpoint == e {
            return Some(i);
        }
        i = i + 1;
    }
    None
}

} // verus!
