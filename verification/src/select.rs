//! The target selector: given a pool of request descriptors and a
//! distribution policy, picks the descriptor for a virtual user. The
//! round-robin policy draws from a shared atomic counter; the random and
//! weighted policies draw a uniform index; the sequential policy maps
//! the 1-based user id onto the pool in blocks.

use vstd::prelude::*;
use core::sync::atomic::{AtomicUsize, Ordering};
use crate::request::RequestConfig;
use vstd::arithmetic::div_mod::{
    lemma_fundamental_div_mod, lemma_fundamental_div_mod_converse, lemma_mod_bound,
    lemma_mod_equivalence, lemma_small_mod,
};

verus! {

/// How virtual users are distributed over the configured targets.
#[derive(Debug, Clone, Copy, PartialEq, Eq, Structural)]
pub enum UrlDistribution {
    /// Take turns over the pool, driven by a shared counter.
    RoundRobin,
    /// A uniform random target per user.
    Random,
    /// Weight-proportional selection; no per-target weight is carried
    /// here, so every target has weight one and this draws uniformly.
    Weighted,
    /// Contiguous blocks: user `u` goes to `(u - 1) % poolSize`.
    Sequential,
}

/// Relies on `rand::random_range` over `0..n`: a uniform index below
/// `n`; the range is nonempty, so the call does not panic.
#[verifier::external_body]
fn random_below(n: usize) -> (r: usize)
    requires
        n >= 1,
    ensures
        r < n,
{
    rand::random_range(0..n)
}

/// A pool of request descriptors with a distribution policy and the
/// shared counter that round-robin selection consumes.
pub struct MultiUrlTester {
    pub configs: Vec<RequestConfig>,
    pub distribution: UrlDistribution,
    pub current_index: AtomicUsize,
}

impl MultiUrlTester {
    pub fn new(configs: Vec<RequestConfig>, distribution: UrlDistribution) -> (r: MultiUrlTester)
        ensures
            r.configs == configs,
            r.distribution == distribution,
    {
        MultiUrlTester { configs, distribution, current_index: AtomicUsize::new(0) }
    }

    /// Picks the descriptor for one virtual user; the pool is never
    /// mutated. The result is always a descriptor of the pool, and the
    /// sequential policy picks exactly `(user_id - 1) % poolSize`. The
    /// round-robin arm consumes one shared counter value, whatever it
    /// is, and maps it onto the pool by remainder.
    pub fn get_next_config(&self, user_id: usize) -> (r: &RequestConfig)
        requires
            self.configs@.len() > 0,
            self.distribution is Sequential ==> user_id >= 1,
        ensures
            exists|i: int| 0 <= i < self.configs@.len() && *r == self.configs@[i],
            self.distribution is Sequential ==> *r == self.configs@[(user_id - 1) as int % (
            self.configs@.len() as int)],
    {
        let len = self.configs.len();
        match self.distribution {
            UrlDistribution::RoundRobin => {
                let counter = self.current_index.fetch_add(1, Ordering::SeqCst);
                let i = counter % len;
                proof {
                    lemma_mod_bound(counter as int, len as int);
                }
                &self.configs[i]
            },
            UrlDistribution::Random => {
                let i = random_below(len);
                &self.configs[i]
            },
            UrlDistribution::Sequential => {
                let i = (user_id - 1) % len;
                proof {
                    lemma_mod_bound((user_id - 1) as int, len as int);
                }
                &self.configs[i]
            },
            UrlDistribution::Weighted => {
                // Every target carries weight one, so the accumulated
                // weight reaches the drawn value at index `random`.
                let total_weight = len;
                let random = random_below(total_weight);
                let mut accumulated: usize = 0;
                let mut i: usize = 0;
                while i < len
                    invariant
                        0 <= i <= len,
                        len == self.configs@.len(),
                        self.distribution is Weighted,
                        accumulated == i,
                        random < len,
                        random >= i,
                    decreases len - i,
                {
                    accumulated = accumulated + 1;
                    if random < accumulated {
                        return &self.configs[i];
                    }
                    i = i + 1;
                }
                &self.configs[0]
            },
        }
    }
}

/// The pool index that a shared counter value selects under round-robin.
pub open spec fn rr_index(counter: int, len: int) -> int {
    counter % len
}

/// How many of the `n` consecutive counter values starting at `c0`
/// select index `k`.
pub open spec fn rr_hits(c0: int, n: int, len: int, k: int) -> int
    decreases n,
{
    if n <= 0 {
        0
    } else {
        rr_hits(c0, n - 1, len, k) + if rr_index(c0 + (n - 1), len) == k {
            1int
        } else {
            0int
        }
    }
}

/// Round-robin fairness: over any `n` consecutive counter values, every
/// pool index is selected either `⌊n / len⌋` or `⌈n / len⌉` times — one
/// extra hit goes to exactly the first `n % len` positions of the cycle
/// that starts at `c0`.
pub proof fn lemma_round_robin_fair(c0: int, n: int, len: int, k: int)
    requires
        len > 0,
        0 <= k < len,
        n >= 0,
    ensures
        rr_hits(c0, n, len, k) == n / len + if (k - c0) % len < n % len {
            1int
        } else {
            0int
        },
        n % len == 0 ==> rr_hits(c0, n, len, k) == n / len,
        n / len <= rr_hits(c0, n, len, k) <= n / len + 1,
    decreases n,
{
    let o = (k - c0) % len;
    lemma_mod_bound(k - c0, len);
    if n == 0 {
        lemma_small_mod(0, len as nat);
        assert(0int / len == 0) by {
            lemma_fundamental_div_mod_converse(0, len, 0, 0);
        }
    } else {
        lemma_round_robin_fair(c0, n - 1, len, k);
        lemma_mod_equivalence(c0 + (n - 1), k, len);
        lemma_mod_equivalence(n - 1, k - c0, len);
        assert((c0 + (n - 1)) - k == (n - 1) - (k - c0));
        lemma_small_mod(k as nat, len as nat);
        let q = (n - 1) / len;
        let r = (n - 1) % len;
        lemma_fundamental_div_mod(n - 1, len);
        lemma_mod_bound(n - 1, len);
        if r == len - 1 {
            assert((q + 1) * len == q * len + len) by (nonlinear_arith);
            lemma_fundamental_div_mod_converse(n, len, q + 1, 0);
        } else {
            lemma_fundamental_div_mod_converse(n, len, q, r + 1);
        }
        assert(rr_index(c0 + (n - 1), len) == k <==> r == o);
    }
}

} // verus!
