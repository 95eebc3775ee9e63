//! The host-override routing policy: a static table of exact-hostname rules,
//! each carrying a non-empty ordered candidate list.  A request whose host
//! matches a rule is pinned to that rule's candidates — one is picked
//! uniformly at random — and never touches the generic pool.
//!
//! Override candidates are not covered by the health checker: the pick is
//! uniform over the rule's full list, so candidates listed here are assumed
//! always healthy.  That is a deliberate simplicity of this design.

use vstd::prelude::*;
use crate::bytes::bytes_eq;
use crate::bytes::copy_bytes;
use crate::pool::ConfigError;

verus! {

/// One override rule: an exact hostname and its candidate addresses.
pub struct RoutingRule {
    pub host: Vec<u8>,
    pub candidates: Vec<Vec<u8>>,
}

/// The static rule table, loaded once at startup.
pub struct RoutingPolicy {
    rules: Vec<RoutingRule>,
}

/// The spec-level shape of one rule: its hostname and candidate views.
#[verifier::ext_equal]
pub struct RuleModel {
    pub host: Seq<u8>,
    pub candidates: Seq<Seq<u8>>,
}

/// Index of the first rule at or after `i` matching `host`, if any.
pub open spec fn first_match_from(rules: Seq<RuleModel>, host: Seq<u8>, i: int) -> Option<int>
    decreases rules.len() - i when 0 <= i <= rules.len()
{
    if i >= rules.len() {
        None
    } else if rules[i].host == host {
        Some(i)
    } else {
        first_match_from(rules, host, i + 1)
    }
}

impl RoutingPolicy {
    /// The rule table, in lookup order.
    pub closed spec fn rules_spec(self) -> Seq<RuleModel> {
        self.rules@.map_values(
            |r: RoutingRule|
                RuleModel {
                    host: r.host@,
                    candidates: crate::bytes::byte_views(r.candidates@),
                },
        )
    }

    /// Well-formedness: every rule has at least one candidate.
    pub open spec fn wf(self) -> bool {
        forall|i: int|
            0 <= i < self.rules_spec().len() ==> #[trigger] self.rules_spec()[i].candidates.len()
                > 0
    }

    /// Index of the first rule matching `host`, if any.
    pub open spec fn match_index(self, host: Seq<u8>) -> Option<int> {
        first_match_from(self.rules_spec(), host, 0)
    }

    /// An empty table: every lookup falls through to the generic pool.
    pub fn new() -> (p: RoutingPolicy)
        ensures
            p.wf(),
            p.rules_spec().len() == 0,
    {
        RoutingPolicy { rules: Vec::new() }
    }

    /// Appends one rule.  A rule with no candidates is a configuration
    /// error: a matched host could never be routed.
    pub fn add_rule(&mut self, host: Vec<u8>, candidates: Vec<Vec<u8>>) -> (r: Result<
        (),
        ConfigError,
    >)
        requires
            old(self).wf(),
        ensures
            final(self).wf(),
            (r is Ok) == (candidates@.len() > 0),
            r is Ok ==> final(self).rules_spec() == old(self).rules_spec().push(
                (RuleModel { host: host@, candidates: crate::bytes::byte_views(candidates@) }),
            ),
            r is Err ==> *final(self) == *old(self),
    {
        if candidates.len() == 0 {
            return Err(ConfigError::EmptyBackendList);
        }
        self.rules.push(RoutingRule { host, candidates });
        proof {
            assert(self.rules_spec() =~~= old(self).rules_spec().push(
                (RuleModel { host: host@, candidates: crate::bytes::byte_views(candidates@) }),
            ));
        }
        Ok(())
    }

    /// Exact lookup of `host` in the table.  On a match, returns one address
    /// picked uniformly at random among the first matching rule's
    /// candidates; with no matching rule, returns `None` to signal the
    /// fall-through to the generic pool.
    pub fn resolve(&self, host: &Vec<u8>) -> (r: Option<Vec<u8>>)
        requires
            self.wf(),
        ensures
            (r is Some) == (self.match_index(host@) is Some),
            r matches Some(a) ==> (self.match_index(host@) matches Some(m)
                && self.rules_spec()[m].candidates.contains(a@)),
    {
        let n = self.rules.len();
        let mut i: usize = 0;
        while i < n
            invariant
                self.wf(),
                n == self.rules_spec().len(),
                i <= n,
                first_match_from(self.rules_spec(), host@, 0) == first_match_from(
                    self.rules_spec(),
                    host@,
                    i as int,
                ),
            decreases n - i,
        {
            if bytes_eq(&self.rules[i].host, host) {
                let cands = &self.rules[i].candidates;
                assert(self.rules_spec()[i as int].candidates.len() > 0);
                assert(self.rules_spec()[i as int].candidates == crate::bytes::byte_views(
                    cands@,
                ));
                let j = random_index(cands.len());
                let a = copy_bytes(&cands[j]);
                assert(self.rules_spec()[i as int].candidates[j as int] == a@);
                assert(self.rules_spec()[i as int].candidates.contains(a@));
                return Some(a);
            }
            i = i + 1;
        }
        None
    }
}

/// Relies on rand: `Rng::gen_range` over `0..n` returns a uniformly random
/// index below `n`; it panics on an empty range, so `n` must be positive.
/// The result depends on the generator's state, so nothing more than its
/// range is stated.
#[verifier::external_body]
fn random_index(n: usize) -> (r: usize)
    requires
        n > 0,
    ensures
        r < n,
{
    let mut rng = rand::thread_rng();
    rand::Rng::gen_range(&mut rng, 0..n)
}

} // verus!
