//! The backend pool: an ordered, fixed set of backend addresses with a
//! per-backend health flag and a round-robin selection cursor.
//!
//! Membership is fixed at construction (duplicate addresses collapse to their
//! first occurrence, so an address identifies a backend); only the health
//! flags and the cursor change afterwards.  The surrounding application
//! guards a pool with a lock when request handlers and the health checker
//! share it; every operation here is short and touches no I/O, so the
//! critical sections stay minimal.

use vstd::prelude::*;
use vstd::arithmetic::div_mod::lemma_add_mod_noop_right;
use vstd::arithmetic::div_mod::lemma_mod_bound;
use vstd::arithmetic::div_mod::lemma_mod_equivalence;
use vstd::arithmetic::div_mod::lemma_mod_self_0;
use vstd::arithmetic::div_mod::lemma_small_mod;
use crate::bytes::copy_bytes;
use crate::bytes::bytes_eq;

verus! {

/// Selection over a pool with no healthy member fails with this error; the
/// request pipeline converts it into a gateway-unavailable response.
#[derive(Debug, PartialEq, Eq, Structural, Clone, Copy)]
pub enum SelectError {
    NoHealthyBackend,
}

/// Configuration errors are fatal at startup: a proxy with no backends at all
/// must not begin serving.
#[derive(Debug, PartialEq, Eq, Structural, Clone, Copy)]
pub enum ConfigError {
    EmptyBackendList,
}

/// The cursor position reached from `start` after `j` single steps around a
/// pool of `len` slots.
pub open spec fn slot(start: int, j: int, len: int) -> int {
    (start + j) % len
}

/// The index round-robin selection picks: the first healthy index at or after
/// `start` (circularly), giving up after `fuel` steps.
pub open spec fn scan_from(health: Seq<bool>, start: int, fuel: nat) -> Option<int>
    decreases fuel,
{
    if fuel == 0 || health.len() == 0 {
        None
    } else {
        let i = start % (health.len() as int);
        if health[i] {
            Some(i)
        } else {
            scan_from(health, start + 1, (fuel - 1) as nat)
        }
    }
}

/// The index a selection starting at `cursor` returns: the first healthy
/// index reached within one full cycle, if any.
pub open spec fn selected_index(health: Seq<bool>, cursor: int) -> Option<int> {
    scan_from(health, cursor, health.len())
}

/// The cursor position after `k` selections starting from `cursor`: each
/// selection advances the cursor exactly one step, however many unhealthy
/// entries it skips.
pub open spec fn cursor_after(len: int, cursor: int, k: nat) -> int
    decreases k,
{
    if k == 0 {
        cursor
    } else {
        (cursor_after(len, cursor, (k - 1) as nat) + 1) % len
    }
}

/// A scan that returns an index returns an in-range, healthy one.
pub proof fn lemma_scan_result(health: Seq<bool>, start: int, fuel: nat)
    requires
        health.len() > 0,
    ensures
        scan_from(health, start, fuel) matches Some(i) ==> 0 <= i < health.len() && health[i],
    decreases fuel,
{
    let len = health.len() as int;
    if fuel > 0 {
        lemma_mod_bound(start, len);
        if !health[start % len] {
            lemma_scan_result(health, start + 1, (fuel - 1) as nat);
        }
    }
}

/// A scan that came up empty inspected only unhealthy slots.
pub proof fn lemma_scan_none(health: Seq<bool>, start: int, fuel: nat)
    requires
        health.len() > 0,
        scan_from(health, start, fuel) is None,
    ensures
        forall|j: int| 0 <= j < fuel ==> !health[#[trigger] slot(start, j, health.len() as int)],
    decreases fuel,
{
    let len = health.len() as int;
    if fuel > 0 {
        lemma_scan_none(health, start + 1, (fuel - 1) as nat);
        assert forall|j: int| 0 <= j < fuel implies !health[#[trigger] slot(
            start,
            j,
            len,
        )] by {
            if j == 0 {
                assert(slot(start, 0, len) == start % len);
            } else {
                assert(slot(start, j, len) == slot(start + 1, j - 1, len));
                assert(!health[slot(start + 1, j - 1, len)]);
            }
        }
    }
}

/// A scan whose whole window is unhealthy comes up empty.
pub proof fn lemma_scan_misses(health: Seq<bool>, start: int, fuel: nat)
    requires
        health.len() > 0,
        forall|j: int| 0 <= j < fuel ==> !health[#[trigger] slot(start, j, health.len() as int)],
    ensures
        scan_from(health, start, fuel) is None,
    decreases fuel,
{
    let len = health.len() as int;
    if fuel > 0 {
        assert(slot(start, 0, len) == start % len);
        assert(!health[start % len]);
        assert forall|j: int| 0 <= j < fuel - 1 implies !health[#[trigger] slot(
            start + 1,
            j,
            len,
        )] by {
            assert(slot(start + 1, j, len) == slot(start, j + 1, len));
            assert(!health[slot(start, j + 1, len)]);
        }
        lemma_scan_misses(health, start + 1, (fuel - 1) as nat);
    }
}

/// A scan finds exactly the first healthy slot of its window.
pub proof fn lemma_scan_finds(health: Seq<bool>, start: int, fuel: nat, k: int)
    requires
        health.len() > 0,
        0 <= k < fuel,
        forall|j: int| 0 <= j < k ==> !health[#[trigger] slot(start, j, health.len() as int)],
        health[slot(start, k, health.len() as int)],
    ensures
        scan_from(health, start, fuel) == Some(slot(start, k, health.len() as int)),
    decreases k,
{
    let len = health.len() as int;
    lemma_mod_bound(start, len);
    if k == 0 {
        assert(slot(start, 0, len) == start % len);
    } else {
        assert(slot(start, 0, len) == start % len);
        assert(!health[start % len]);
        assert forall|j: int| 0 <= j < k - 1 implies !health[#[trigger] slot(
            start + 1,
            j,
            len,
        )] by {
            assert(slot(start + 1, j, len) == slot(start, j + 1, len));
            assert(!health[slot(start, j + 1, len)]);
        }
        assert(slot(start + 1, k - 1, len) == slot(start, k, len));
        lemma_scan_finds(health, start + 1, (fuel - 1) as nat, k - 1);
    }
}

/// A selection succeeds exactly when some backend is healthy.
pub proof fn lemma_select_total(health: Seq<bool>, cursor: int)
    requires
        health.len() > 0,
    ensures
        (selected_index(health, cursor) is Some) == (exists|i: int|
            0 <= i < health.len() && health[i]),
{
    let len = health.len() as int;
    if exists|i: int| 0 <= i < health.len() && health[i] {
        let i = choose|i: int| 0 <= i < health.len() && health[i];
        if selected_index(health, cursor) is None {
            lemma_scan_none(health, cursor, health.len());
            let j = (i - cursor) % len;
            lemma_mod_bound(i - cursor, len);
            lemma_add_mod_noop_right(cursor, i - cursor, len);
            lemma_small_mod(i as nat, len as nat);
            assert(slot(cursor, j, len) == i);
            assert(!health[slot(cursor, j, len)]);
            assert(false);
        }
    } else {
        lemma_scan_result(health, cursor, health.len());
        if selected_index(health, cursor) is Some {
            let i = selected_index(health, cursor)->Some_0;
            assert(0 <= i < health.len() && health[i]);
            assert(false);
        }
    }
}

/// The cursor after `k` selections sits `k` steps around the ring.
pub proof fn lemma_cursor_after(len: int, cursor: int, k: nat)
    requires
        len > 0,
        0 <= cursor < len,
    ensures
        cursor_after(len, cursor, k) == (cursor + k) % len,
    decreases k,
{
    if k == 0 {
        lemma_small_mod(cursor as nat, len as nat);
    } else {
        lemma_cursor_after(len, cursor, (k - 1) as nat);
        lemma_add_mod_noop_right(1, cursor + k - 1, len);
        assert((1 + (cursor + k - 1) % len) % len == (cursor + k) % len);
    }
}

pub struct BackendPool {
    addrs: Vec<Vec<u8>>,
    health: Vec<bool>,
    cursor: usize,
}

impl BackendPool {
    /// The backend addresses, in original list order.
    pub closed spec fn addrs_spec(self) -> Seq<Seq<u8>> {
        self.addrs@.map_values(|a: Vec<u8>| a@)
    }

    /// The per-backend health flags, indexed as `addrs_spec`.
    pub closed spec fn health_spec(self) -> Seq<bool> {
        self.health@
    }

    /// The round-robin cursor.
    pub closed spec fn cursor_spec(self) -> int {
        self.cursor as int
    }

    /// Number of backends.
    pub open spec fn len_spec(self) -> int {
        self.addrs_spec().len() as int
    }

    /// Well-formedness: one health flag per address, at least one backend,
    /// the cursor in range, and addresses pairwise distinct.
    pub open spec fn wf(self) -> bool {
        &&& self.health_spec().len() == self.addrs_spec().len()
        &&& self.addrs_spec().len() > 0
        &&& 0 <= self.cursor_spec() < self.len_spec()
        &&& forall|i: int, j: int|
            0 <= i < j < self.len_spec() ==> self.addrs_spec()[i] != self.addrs_spec()[j]
    }

    /// At least one backend is currently healthy.
    pub open spec fn some_healthy(self) -> bool {
        exists|i: int| 0 <= i < self.len_spec() && self.health_spec()[i]
    }

    /// Builds a pool over the given addresses, every backend initially
    /// healthy and the cursor at the first entry.  Duplicate addresses
    /// collapse to their first occurrence; an empty list is the fatal
    /// configuration error.
    pub fn new(addresses: Vec<Vec<u8>>) -> (r: Result<BackendPool, ConfigError>)
        ensures
            (r is Ok) == (addresses@.len() > 0),
            (r is Err) == (addresses@.len() == 0),
            r matches Ok(p) ==> ({
                &&& p.wf()
                &&& p.addrs_spec() == dedup_first(crate::bytes::byte_views(addresses@))
                &&& forall|i: int| 0 <= i < p.len_spec() ==> p.health_spec()[i]
                &&& p.cursor_spec() == 0
            }),
    {
        if addresses.len() == 0 {
            return Err(ConfigError::EmptyBackendList);
        }
        let n = addresses.len();
        let mut addrs: Vec<Vec<u8>> = Vec::new();
        let mut i: usize = 0;
        while i < n
            invariant
                n == addresses@.len(),
                i <= n,
                crate::bytes::byte_views(addrs@) == dedup_first(
                    crate::bytes::byte_views(addresses@).take(i as int),
                ),
                i > 0 ==> addrs@.len() > 0,
                forall|p: int, q: int|
                    0 <= p < q < addrs@.len() ==> addrs@[p]@ != addrs@[q]@,
            decreases n - i,
        {
            let ghost pre = crate::bytes::byte_views(addrs@);
            let ghost all = crate::bytes::byte_views(addresses@);
            match find_index(&addrs, &addresses[i]) {
                Some(_) => {
                    proof {
                        assert(pre.contains(all[i as int]));
                        assert(all.take(i + 1).drop_last() =~= all.take(i as int));
                        assert(all.take(i + 1).last() == all[i as int]);
                    }
                },
                None => {
                    addrs.push(copy_bytes(&addresses[i]));
                    proof {
                        assert(crate::bytes::byte_views(addrs@) =~= pre.push(all[i as int]));
                        assert(!pre.contains(all[i as int]));
                        assert(all.take(i + 1).drop_last() =~= all.take(i as int));
                        assert(all.take(i + 1).last() == all[i as int]);
                        assert forall|p: int, q: int|
                            0 <= p < q < addrs@.len() implies addrs@[p]@ != addrs@[q]@ by {
                            if q == addrs@.len() - 1 {
                                assert(pre[p] == addrs@[p]@);
                                assert(addrs@[q]@ == all[i as int]);
                            }
                        }
                    }
                },
            }
            i = i + 1;
        }
        proof {
            let all = crate::bytes::byte_views(addresses@);
            assert(all.take(n as int) =~= all);
        }
        let m = addrs.len();
        let health: Vec<bool> = vec_bool_true(m);
        Ok(BackendPool { addrs, health, cursor: 0 })
    }

    /// Number of backends in the pool.
    pub fn len(&self) -> (n: usize)
        ensures
            n as int == self.len_spec(),
    {
        self.addrs.len()
    }

    /// The address of the backend at index `i`, in original list order.
    pub fn address_at(&self, i: usize) -> (a: Vec<u8>)
        requires
            i < self.len_spec(),
        ensures
            a@ == self.addrs_spec()[i as int],
    {
        copy_bytes(&self.addrs[i])
    }

    /// The health flag of the backend at index `i`.
    pub fn healthy_at(&self, i: usize) -> (h: bool)
        requires
            self.wf(),
            i < self.len_spec(),
        ensures
            h == self.health_spec()[i as int],
    {
        self.health[i]
    }

    /// Round-robin selection: returns the address of the first healthy
    /// backend at or after the cursor, circularly, and advances the cursor
    /// exactly one step whatever it skipped.  Fails exactly when no backend
    /// is healthy; health flags and membership are never touched.
    pub fn select(&mut self) -> (r: Result<Vec<u8>, SelectError>)
        requires
            old(self).wf(),
        ensures
            final(self).wf(),
            final(self).addrs_spec() == old(self).addrs_spec(),
            final(self).health_spec() == old(self).health_spec(),
            final(self).cursor_spec() == (old(self).cursor_spec() + 1) % old(self).len_spec(),
            (r is Ok) == old(self).some_healthy(),
            (r is Err) == !old(self).some_healthy(),
            r matches Ok(a) ==> (selected_index(
                old(self).health_spec(),
                old(self).cursor_spec(),
            ) matches Some(i) && a@ == old(self).addrs_spec()[i]
                && old(self).health_spec()[i]),
    {
        let found = find_healthy_from(&self.health, self.cursor);
        let n = self.addrs.len();
        let start = self.cursor;
        self.cursor = if start + 1 == n {
            0
        } else {
            start + 1
        };
        proof {
            if start + 1 == n {
                lemma_mod_self_0(n as int);
            } else {
                lemma_small_mod((start + 1) as nat, n as nat);
            }
            lemma_select_total(self.health@, start as int);
        }
        match found {
            Some(i) => Ok(copy_bytes(&self.addrs[i])),
            None => Err(SelectError::NoHealthyBackend),
        }
    }

    /// Flips the health flag of the backend with the given address; a no-op
    /// when the address is unknown, and idempotent.  Membership and the
    /// cursor are never touched.
    pub fn set_health(&mut self, address: &Vec<u8>, healthy: bool)
        requires
            old(self).wf(),
        ensures
            final(self).wf(),
            final(self).addrs_spec() == old(self).addrs_spec(),
            final(self).cursor_spec() == old(self).cursor_spec(),
            final(self).health_spec().len() == old(self).health_spec().len(),
            forall|i: int|
                0 <= i < old(self).len_spec() ==> final(self).health_spec()[i] == (if old(
                    self,
                ).addrs_spec()[i] == address@ {
                    healthy
                } else {
                    old(self).health_spec()[i]
                }),
    {
        match find_index(&self.addrs, address) {
            Some(i) => {
                self.health[i] = healthy;
                proof {
                    assert forall|j: int|
                        0 <= j < old(self).len_spec() implies self.health_spec()[j] == (if old(
                        self,
                    ).addrs_spec()[j] == address@ {
                        healthy
                    } else {
                        old(self).health_spec()[j]
                    }) by {
                        if j != i && old(self).addrs_spec()[j] == address@ {
                            assert(old(self).addrs_spec()[j] == old(self).addrs_spec()[i as int]);
                        }
                    }
                }
            },
            None => {},
        }
    }
}

/// First index holding the given address, if any.
fn find_index(addrs: &Vec<Vec<u8>>, a: &Vec<u8>) -> (r: Option<usize>)
    ensures
        r matches Some(i) ==> i < addrs@.len() && addrs@[i as int]@ == a@,
        (r is None) == (!crate::bytes::byte_views(addrs@).contains(a@)),
    {
    let n = addrs.len();
    let mut i: usize = 0;
    while i < n
        invariant
            n == addrs@.len(),
            i <= n,
            forall|j: int| 0 <= j < i ==> addrs@[j]@ != a@,
        decreases n - i,
    {
        if bytes_eq(&addrs[i], a) {
            assert(crate::bytes::byte_views(addrs@)[i as int] == a@);
            return Some(i);
        }
        i = i + 1;
    }
    assert forall|j: int| 0 <= j < addrs@.len() implies crate::bytes::byte_views(addrs@)[j]
        != a@ by {
        assert(addrs@[j]@ != a@);
    }
    None
}

/// First healthy index at or after `start`, circularly; `None` when every
/// backend is unhealthy.
fn find_healthy_from(health: &Vec<bool>, start: usize) -> (r: Option<usize>)
    requires
        health@.len() > 0,
        start < health@.len(),
    ensures
        r matches Some(i) ==> (i < health@.len() && health@[i as int] && selected_index(
            health@,
            start as int,
        ) == Some(i as int)),
        r is None ==> selected_index(health@, start as int) is None,
    {
    let n = health.len();
    let mut idx = start;
    let mut k: usize = 0;
    proof {
        lemma_small_mod(start as nat, n as nat);
    }
    while k < n
        invariant
            n == health@.len(),
            n > 0,
            start < n,
            k <= n,
            idx < n,
            idx as int == slot(start as int, k as int, n as int),
            forall|j: int| 0 <= j < k ==> !health@[#[trigger] slot(start as int, j, n as int)],
        decreases n - k,
    {
        if health[idx] {
            proof {
                lemma_scan_finds(health@, start as int, n as nat, k as int);
            }
            return Some(idx);
        }
        let ghost old_idx = idx as int;
        let ghost old_k = k as int;
        idx = if idx + 1 == n {
            0
        } else {
            idx + 1
        };
        k = k + 1;
        proof {
            lemma_add_mod_noop_right(1, start as int + old_k, n as int);
            if old_idx + 1 == n {
                lemma_mod_self_0(n as int);
            } else {
                lemma_small_mod((old_idx + 1) as nat, n as nat);
            }
            assert(idx as int == slot(start as int, k as int, n as int));
            assert forall|j: int|
                0 <= j < k implies !health@[#[trigger] slot(start as int, j, n as int)] by {
                if j == old_k {
                    assert(slot(start as int, j, n as int) == old_idx);
                }
            }
        }
    }
    proof {
        lemma_scan_misses(health@, start as int, n as nat);
    }
    None
}

/// Round-robin fairness: with every backend healthy and no health change in
/// between, the k-th of N consecutive selections starts with its cursor at
/// position (cursor + k) % N and returns exactly the backend at that index.
/// So N consecutive selections return each backend exactly once, in original
/// list order from the starting cursor.
pub proof fn lemma_round_robin_fairness(health: Seq<bool>, cursor: int, k: nat)
    requires
        health.len() > 0,
        0 <= cursor < health.len(),
        forall|i: int| 0 <= i < health.len() ==> health[i],
        k < health.len(),
    ensures
        cursor_after(health.len() as int, cursor, k) == (cursor + k) % (health.len() as int),
        selected_index(health, (cursor + k) % (health.len() as int)) == Some(
            (cursor + k) % (health.len() as int),
        ),
{
    let len = health.len() as int;
    lemma_cursor_after(len, cursor, k);
    lemma_mod_bound(cursor + k, len);
    let s = (cursor + k) % len;
    lemma_small_mod(s as nat, len as nat);
    assert(s % len == s);
}

/// Two offsets within one cycle land on two different cursor positions, so
/// the selections of one all-healthy cycle never repeat a backend.
pub proof fn lemma_round_robin_distinct(len: int, cursor: int, k1: nat, k2: nat)
    requires
        len > 0,
        k1 < k2,
        k2 < len,
    ensures
        (cursor + k1) % len != (cursor + k2) % len,
{
    if (cursor + k1) % len == (cursor + k2) % len {
        lemma_mod_equivalence(cursor + k2, cursor + k1, len);
        lemma_small_mod((k2 - k1) as nat, len as nat);
        assert(false);
    }
}

/// Unhealthy exclusion: selection never picks an unhealthy index.  Selection
/// leaves health untouched, so once a backend is marked unhealthy no
/// selection returns it until it is marked healthy again.
pub proof fn lemma_unhealthy_excluded(health: Seq<bool>, cursor: int, i: int)
    requires
        health.len() > 0,
        0 <= i < health.len(),
        !health[i],
    ensures
        selected_index(health, cursor) != Some(i),
{
    lemma_scan_result(health, cursor, health.len());
}

/// Starvation freedom, pointwise: a healthy backend at index `i` is reached
/// within one full cycle from any cursor — after (i - cursor) % N selections
/// the cursor sits at `i`, and the selection starting there returns `i`.
pub proof fn lemma_healthy_backend_reached(health: Seq<bool>, cursor: int, i: int)
    requires
        health.len() > 0,
        0 <= cursor < health.len(),
        0 <= i < health.len(),
        health[i],
    ensures
        ({
            let len = health.len() as int;
            let k = (i - cursor) % len;
            &&& 0 <= k < len
            &&& cursor_after(len, cursor, k as nat) == i
            &&& selected_index(health, i) == Some(i)
        }),
{
    let len = health.len() as int;
    let k = (i - cursor) % len;
    lemma_mod_bound(i - cursor, len);
    lemma_cursor_after(len, cursor, k as nat);
    lemma_add_mod_noop_right(cursor, i - cursor, len);
    lemma_small_mod(i as nat, len as nat);
    assert(cursor_after(len, cursor, k as nat) == i);
    assert(i % len == i);
}

/// Health-check convergence: one probe cycle makes the health flags equal to
/// the probe results (see `apply_probe_results`); from then on a backend
/// whose probe failed is excluded from every selection, and one whose probe
/// succeeded is eligible and reached within one cycle.
pub proof fn lemma_probe_convergence(probes: Seq<bool>, cursor: int, i: int)
    requires
        probes.len() > 0,
        0 <= cursor < probes.len(),
        0 <= i < probes.len(),
    ensures
        !probes[i] ==> selected_index(probes, cursor) != Some(i),
        probes[i] ==> selected_index(probes, i) == Some(i) && cursor_after(
            probes.len() as int,
            cursor,
            ((i - cursor) % (probes.len() as int)) as nat,
        ) == i,
{
    if !probes[i] {
        lemma_unhealthy_excluded(probes, cursor, i);
    } else {
        lemma_healthy_backend_reached(probes, cursor, i);
    }
}

/// A dedup that keeps each address's first occurrence.
pub open spec fn dedup_first(s: Seq<Seq<u8>>) -> Seq<Seq<u8>>
    decreases s.len(),
{
    if s.len() == 0 {
        Seq::empty()
    } else {
        let rest = dedup_first(s.drop_last());
        if rest.contains(s.last()) {
            rest
        } else {
            rest.push(s.last())
        }
    }
}

/// A vector of `n` health flags, all set.
fn vec_bool_true(n: usize) -> (v: Vec<bool>)
    ensures
        v@.len() == n,
        forall|i: int| 0 <= i < n ==> v@[i],
    {
    let mut v: Vec<bool> = Vec::new();
    let mut i: usize = 0;
    while i < n
        invariant
            i <= n,
            v@.len() == i,
            forall|j: int| 0 <= j < i ==> v@[j],
        decreases n - i,
    {
        v.push(true);
        i = i + 1;
    }
    v
}

} // verus!
