//! The health-check cycle's effect on the pool.
//!
//! The background checker probes every backend once per interval (a
//! TCP-connect-class probe with a bounded timeout, run by the surrounding
//! application) and records each verdict through `BackendPool::set_health`:
//! one failed probe flips a backend unhealthy at once, one successful probe
//! flips it back at once — no hysteresis.  The probing itself is I/O and
//! stays outside; this module holds the decision logic that turns a cycle's
//! probe verdicts into the pool's new health state.

use vstd::prelude::*;
use crate::pool::BackendPool;

verus! {

/// The default probe interval, in milliseconds: one second.
pub const DEFAULT_PROBE_INTERVAL_MS: u64 = 1000;

/// The interval the checker runs at: the configured duration, or one second
/// when none was configured.
pub fn probe_interval_ms(configured: Option<u64>) -> (r: u64)
    ensures
        r == (match configured {
            Option::Some(ms) => ms,
            Option::None => DEFAULT_PROBE_INTERVAL_MS as u64,
        }),
{
    match configured {
        Option::Some(ms) => ms,
        Option::None => DEFAULT_PROBE_INTERVAL_MS,
    }
}

/// Records one probe cycle's verdicts, `probes[i]` being the verdict for the
/// backend at index `i`: after the call the pool's health flags equal the
/// verdicts, so a backend that failed its probe is excluded from selection
/// and one that succeeded is eligible again.  Membership and the cursor are
/// untouched.
pub fn apply_probe_results(pool: &mut BackendPool, probes: &Vec<bool>)
    requires
        old(pool).wf(),
        probes@.len() == old(pool).len_spec(),
    ensures
        final(pool).wf(),
        final(pool).addrs_spec() == old(pool).addrs_spec(),
        final(pool).cursor_spec() == old(pool).cursor_spec(),
        final(pool).health_spec() == probes@,
{
    let n = pool.len();
    let mut i: usize = 0;
    while i < n
        invariant
            pool.wf(),
            n == pool.len_spec(),
            probes@.len() == n,
            i <= n,
            pool.addrs_spec() == old(pool).addrs_spec(),
            pool.cursor_spec() == old(pool).cursor_spec(),
            pool.health_spec().len() == n,
            forall|j: int| 0 <= j < i ==> pool.health_spec()[j] == probes@[j],
            forall|j: int| i <= j < n ==> pool.health_spec()[j] == old(pool).health_spec()[j],
        decreases n - i,
    {
        let addr = pool.address_at(i);
        pool.set_health(&addr, probes[i]);
        proof {
            assert forall|j: int| 0 <= j < i + 1 implies pool.health_spec()[j] == probes@[j] by {
                if j < i && pool.addrs_spec()[j] == addr@ {
                    assert(pool.addrs_spec()[j] == pool.addrs_spec()[i as int]);
                }
            }
            assert forall|j: int|
                i + 1 <= j < n implies pool.health_spec()[j] == old(pool).health_spec()[j] by {
                if pool.addrs_spec()[j] == addr@ {
                    assert(pool.addrs_spec()[j] == pool.addrs_spec()[i as int]);
                }
            }
        }
        i = i + 1;
    }
    proof {
        assert(pool.health_spec() =~= probes@);
    }
}

} // verus!
