//! Outcome records and the statistics accumulator: one `RequestResult`
//! per issued request is folded into a `TestStats`, and derived metrics
//! are computed once at the end of a run.

use vstd::prelude::*;
use std::collections::HashMap;
use crate::text::{dec_digits, u64_to_string};

verus! {

broadcast use vstd::std_specs::hash::group_hash_axioms;

/// Mathematical shape of one request outcome.
pub ghost struct OutcomeModel {
    pub user_id: int,
    pub success: bool,
    pub duration_ms: int,
    pub status_code: Option<u16>,
    pub error: Option<Seq<char>>,
    pub url: Seq<char>,
}

/// The immutable result of one completed (or failed) HTTP call.
pub struct RequestResult {
    pub user_id: usize,
    pub success: bool,
    pub duration_ms: u64,
    pub status_code: Option<u16>,
    pub error: Option<String>,
    pub url: String,
}

impl View for RequestResult {
    type V = OutcomeModel;

    open spec fn view(&self) -> OutcomeModel {
        OutcomeModel {
            user_id: self.user_id as int,
            success: self.success,
            duration_ms: self.duration_ms as int,
            status_code: self.status_code,
            error: match self.error {
                Some(e) => Some(e@),
                None => None,
            },
            url: self.url@,
        }
    }
}

/// The error text recorded for a response outside the 2xx range.
pub open spec fn http_error_text(status: u16) -> Seq<char> {
    seq!['H', 'T', 'T', 'P', ' '] + dec_digits(status as nat)
}

/// Builds the outcome for a call that received a response: the call
/// succeeded exactly when the status is in the 2xx range, and a
/// non-2xx status is recorded as the error text `HTTP <code>`.
pub fn outcome_of_response(user_id: usize, url: &str, status: u16, duration_ms: u64) -> (r:
    RequestResult)
    ensures
        r.user_id == user_id,
        r.url@ == url@,
        r.duration_ms == duration_ms,
        r.status_code == Some(status),
        r.success == (200 <= status < 300),
        r.success ==> r.error is None,
        !r.success ==> (r.error matches Some(e) && e@ == http_error_text(status)),
{
    let success = 200 <= status && status < 300;
    let error = if success {
        None
    } else {
        let mut e = String::from_str("HTTP ");
        let digits = u64_to_string(status as u64);
        e.append(digits.as_str());
        proof {
            reveal_strlit("HTTP ");
            assert(e@ =~= http_error_text(status));
        }
        Some(e)
    };
    RequestResult {
        user_id,
        success,
        duration_ms,
        status_code: Some(status),
        error,
        url: String::from_str(url),
    }
}

/// Builds the outcome for a call that got no response at all: always a
/// failure, with the transport-level error text and no status code.
pub fn outcome_of_transport_error(user_id: usize, url: &str, error_text: String, duration_ms: u64) -> (r:
    RequestResult)
    ensures
        r.user_id == user_id,
        r.url@ == url@,
        r.duration_ms == duration_ms,
        r.status_code is None,
        !r.success,
        r.error matches Some(e) && e@ == error_text@,
{
    RequestResult {
        user_id,
        success: false,
        duration_ms,
        status_code: None,
        error: Some(error_text),
        url: String::from_str(url),
    }
}

/// Mathematical shape of the accumulator.
pub ghost struct StatsModel {
    pub total: int,
    pub successful: int,
    pub failed: int,
    pub min_ms: int,
    pub max_ms: int,
    pub total_ms: int,
    pub avg_ms: int,
    pub codes: Map<u16, int>,
}

/// The accumulator before any outcome is folded: the minimum starts at
/// the largest representable duration and the maximum at zero, so the
/// first successful outcome sets both.
pub open spec fn init_stats() -> StatsModel {
    StatsModel {
        total: 0,
        successful: 0,
        failed: 0,
        min_ms: u64::MAX as int,
        max_ms: 0,
        total_ms: 0,
        avg_ms: 0,
        codes: Map::empty(),
    }
}

/// One step of folding: a successful outcome updates the latency range,
/// the latency sum and its status-code bucket; a failed outcome counts
/// only toward `total` and `failed`.
pub open spec fn spec_fold(m: StatsModel, o: OutcomeModel) -> StatsModel {
    if o.success {
        StatsModel {
            total: m.total + 1,
            successful: m.successful + 1,
            failed: m.failed,
            min_ms: if o.duration_ms < m.min_ms {
                o.duration_ms
            } else {
                m.min_ms
            },
            max_ms: if o.duration_ms > m.max_ms {
                o.duration_ms
            } else {
                m.max_ms
            },
            total_ms: m.total_ms + o.duration_ms,
            avg_ms: m.avg_ms,
            codes: match o.status_code {
                Some(c) => m.codes.insert(
                    c,
                    if m.codes.dom().contains(c) {
                        m.codes[c] + 1
                    } else {
                        1
                    },
                ),
                None => m.codes,
            },
        }
    } else {
        StatsModel { total: m.total + 1, failed: m.failed + 1, ..m }
    }
}

/// Folding a whole batch, left to right.
pub open spec fn spec_fold_all(m: StatsModel, os: Seq<OutcomeModel>) -> StatsModel
    decreases os.len(),
{
    if os.len() == 0 {
        m
    } else {
        spec_fold(spec_fold_all(m, os.drop_last()), os.last())
    }
}

/// Finalizing derives the average latency; all other fields are kept.
pub open spec fn spec_finalize(m: StatsModel) -> StatsModel {
    if m.successful > 0 {
        StatsModel { avg_ms: m.total_ms / m.successful, ..m }
    } else {
        m
    }
}

/// Well-formedness of the accumulator: counters are consistent, the
/// latency range brackets the latency sum, and every status-code bucket
/// is bounded by the success count.
pub open spec fn stats_wf(m: StatsModel) -> bool {
    &&& 0 <= m.successful
    &&& 0 <= m.failed
    &&& m.successful + m.failed == m.total
    &&& m.successful > 0 ==> m.min_ms <= m.max_ms
    &&& m.successful == 0 ==> m.total_ms == 0
    &&& m.successful * m.min_ms <= m.total_ms
    &&& m.total_ms <= m.successful * m.max_ms
    &&& 0 <= m.max_ms <= u64::MAX
    &&& 0 <= m.min_ms <= u64::MAX
    &&& forall|c: u16| m.codes.dom().contains(c) ==> 1 <= #[trigger] m.codes[c] <= m.successful
}

/// Mutable accumulator for one run's statistics.
pub struct TestStats {
    pub total_requests: usize,
    pub successful: usize,
    pub failed: usize,
    pub min_duration_ms: u64,
    pub max_duration_ms: u64,
    pub total_duration_ms: u64,
    pub avg_duration_ms: u64,
    pub status_codes: HashMap<u16, usize>,
}

impl View for TestStats {
    type V = StatsModel;

    open spec fn view(&self) -> StatsModel {
        StatsModel {
            total: self.total_requests as int,
            successful: self.successful as int,
            failed: self.failed as int,
            min_ms: self.min_duration_ms as int,
            max_ms: self.max_duration_ms as int,
            total_ms: self.total_duration_ms as int,
            avg_ms: self.avg_duration_ms as int,
            codes: self.status_codes@.map_values(|v: usize| v as int),
        }
    }
}

impl TestStats {
    /// Whether the accumulator is well formed; established by `new` and
    /// preserved by every fold.
    pub open spec fn wf(&self) -> bool {
        stats_wf(self@)
    }

    /// A fresh accumulator.
    pub fn new() -> (r: TestStats)
        ensures
            r@ == init_stats(),
            r.wf(),
    {
        let r = TestStats {
            total_requests: 0,
            successful: 0,
            failed: 0,
            min_duration_ms: u64::MAX,
            max_duration_ms: 0,
            total_duration_ms: 0,
            avg_duration_ms: 0,
            status_codes: HashMap::new(),
        };
        proof {
            assert(r@.codes =~= init_stats().codes);
        }
        r
    }

    /// Folds one outcome into the accumulator, exactly as `spec_fold`
    /// describes.
    pub fn add_result(&mut self, result: &RequestResult)
        requires
            old(self).wf(),
            old(self).total_requests < usize::MAX,
            result.success ==> old(self).total_duration_ms + result.duration_ms <= u64::MAX,
        ensures
            final(self)@ == spec_fold(old(self)@, result@),
            final(self).wf(),
    {
        self.total_requests = self.total_requests + 1;
        if result.success {
            self.successful = self.successful + 1;
            if let Some(status) = result.status_code {
                let prev: usize = match self.status_codes.get(&status) {
                    Some(v) => *v,
                    None => 0,
                };
                proof {
                    assert(old(self)@.codes.dom().contains(status) ==> old(self)@.codes[status]
                        <= old(self)@.successful);
                }
                self.status_codes.insert(status, prev + 1);
            }
            self.total_duration_ms = self.total_duration_ms + result.duration_ms;
            if result.duration_ms < self.min_duration_ms {
                self.min_duration_ms = result.duration_ms;
            }
            if result.duration_ms > self.max_duration_ms {
                self.max_duration_ms = result.duration_ms;
            }
            proof {
                lemma_fold_wf_success(old(self)@, result@);
                assert(self@.codes =~= spec_fold(old(self)@, result@).codes);
            }
        } else {
            self.failed = self.failed + 1;
            proof {
                assert(self@.codes =~= spec_fold(old(self)@, result@).codes);
            }
        }
    }

    /// Computes the derived average latency, exactly as `spec_finalize`
    /// describes; every other field is left as it was.
    pub fn calculate_final(&mut self)
        requires
            old(self).wf(),
        ensures
            final(self)@ == spec_finalize(old(self)@),
            final(self).wf(),
    {
        if self.successful > 0 {
            proof {
                lemma_avg_fits(self@);
            }
            self.avg_duration_ms = self.total_duration_ms / (self.successful as u64);
        }
    }
}

/// Folding a successful outcome preserves well-formedness.
proof fn lemma_fold_wf_success(m: StatsModel, o: OutcomeModel)
    requires
        stats_wf(m),
        o.success,
        0 <= o.duration_ms <= u64::MAX,
    ensures
        stats_wf(spec_fold(m, o)),
{
    let n = spec_fold(m, o);
    assert(n.min_ms <= m.min_ms && n.min_ms <= o.duration_ms);
    assert(n.max_ms >= m.max_ms && n.max_ms >= o.duration_ms);
    vstd::arithmetic::mul::lemma_mul_inequality(n.min_ms, m.min_ms, m.successful);
    vstd::arithmetic::mul::lemma_mul_inequality(m.max_ms, n.max_ms, m.successful);
    assert(m.successful * n.min_ms == n.min_ms * m.successful) by (nonlinear_arith);
    assert(m.successful * m.min_ms == m.min_ms * m.successful) by (nonlinear_arith);
    assert(m.successful * n.max_ms == n.max_ms * m.successful) by (nonlinear_arith);
    assert(m.successful * m.max_ms == m.max_ms * m.successful) by (nonlinear_arith);
    assert((m.successful + 1) * n.min_ms == m.successful * n.min_ms + n.min_ms) by (nonlinear_arith);
    assert((m.successful + 1) * n.max_ms == m.successful * n.max_ms + n.max_ms) by (nonlinear_arith);
    assert(n.successful == m.successful + 1);
}

/// The derived average fits in the duration type.
proof fn lemma_avg_fits(m: StatsModel)
    requires
        stats_wf(m),
        m.successful > 0,
    ensures
        0 <= m.total_ms / m.successful <= m.max_ms,
        m.min_ms <= m.total_ms / m.successful,
{
    vstd::arithmetic::div_mod::lemma_div_multiples_vanish(m.min_ms, m.successful);
    vstd::arithmetic::div_mod::lemma_div_multiples_vanish(m.max_ms, m.successful);
    vstd::arithmetic::div_mod::lemma_div_is_ordered(m.successful * m.min_ms, m.total_ms, m.successful);
    vstd::arithmetic::div_mod::lemma_div_is_ordered(m.total_ms, m.successful * m.max_ms, m.successful);
}

/// Finalizing is idempotent: a second finalize with no folds in between
/// changes nothing, because the average is recomputed from the same
/// latency sum and success count.
pub proof fn lemma_finalize_idempotent(m: StatsModel)
    ensures
        spec_finalize(spec_finalize(m)) == spec_finalize(m),
{
}

/// After finalizing a well-formed accumulator with at least one success,
/// the average latency lies between the minimum and the maximum.
pub proof fn lemma_avg_in_range(m: StatsModel)
    requires
        stats_wf(m),
        m.successful > 0,
    ensures
        m.min_ms <= spec_finalize(m).avg_ms <= m.max_ms,
        spec_finalize(m).min_ms <= spec_finalize(m).max_ms,
{
    lemma_avg_fits(m);
}

/// Folding a batch of all-successful outcomes from a fresh accumulator
/// counts every outcome as a success and none as a failure.
pub proof fn lemma_fold_all_success(os: Seq<OutcomeModel>)
    requires
        forall|i: int| 0 <= i < os.len() ==> (#[trigger] os[i]).success,
    ensures
        spec_fold_all(init_stats(), os).total == os.len(),
        spec_fold_all(init_stats(), os).successful == os.len(),
        spec_fold_all(init_stats(), os).failed == 0,
    decreases os.len(),
{
    if os.len() > 0 {
        lemma_fold_all_success(os.drop_last());
    }
}

/// Folding moves the counters and the latency sum by exactly the batch:
/// the request count grows by the batch length and the latency sum by
/// the batch's summed success latency.
pub proof fn lemma_fold_all_accounting(m: StatsModel, os: Seq<OutcomeModel>)
    ensures
        spec_fold_all(m, os).total == m.total + os.len(),
        spec_fold_all(m, os).total_ms == m.total_ms + global_dur_sum(os),
        spec_fold_all(m, os).avg_ms == m.avg_ms,
    decreases os.len(),
{
    if os.len() > 0 {
        lemma_fold_all_accounting(m, os.drop_last());
    }
}

/// Folds a whole batch of outcomes, exactly as `spec_fold_all`
/// describes.
pub fn fold_results(stats: &mut TestStats, results: &Vec<RequestResult>)
    requires
        old(stats).wf(),
        old(stats)@.total + results@.len() <= usize::MAX,
        old(stats)@.total_ms + global_dur_sum(outcomes_view(results@)) <= u64::MAX,
    ensures
        final(stats)@ == spec_fold_all(old(stats)@, outcomes_view(results@)),
        final(stats).wf(),
{
    let ghost os = outcomes_view(results@);
    proof {
        assert forall|i: int| 0 <= i < os.len() implies 0 <= (#[trigger] os[i]).duration_ms
            <= u64::MAX by {
            assert(os[i] == results@[i]@);
        }
        assert(os.take(0) =~= Seq::<OutcomeModel>::empty());
    }
    let mut k: usize = 0;
    let n = results.len();
    while k < n
        invariant
            0 <= k <= n,
            n == results@.len(),
            os == outcomes_view(results@),
            outcomes_wf(os),
            stats@ == spec_fold_all(old(stats)@, os.take(k as int)),
            stats.wf(),
            old(stats)@.total + n <= usize::MAX,
            old(stats)@.total_ms + global_dur_sum(os) <= u64::MAX,
        decreases n - k,
    {
        proof {
            lemma_fold_all_accounting(old(stats)@, os.take(k as int));
            lemma_global_dur_prefix(os, k as int + 1);
            assert(os.take(k as int + 1).drop_last() =~= os.take(k as int));
            assert(os.take(k as int + 1).last() == os[k as int]);
            assert(os[k as int] == results@[k as int]@);
        }
        stats.add_result(&results[k]);
        k = k + 1;
    }
    proof {
        assert(os.take(n as int) =~= os);
    }
}

/// Per-URL totals of one run: success count, request count, and the
/// summed latency of the successful requests.
pub struct UrlStat {
    pub url: String,
    pub successful: usize,
    pub total: usize,
    pub total_duration_ms: u64,
}

/// The models of a batch of outcomes.
pub open spec fn outcomes_view(rs: Seq<RequestResult>) -> Seq<OutcomeModel> {
    rs.map_values(|r: RequestResult| r@)
}

/// How many outcomes of the batch hit `url`.
pub open spec fn url_total_count(os: Seq<OutcomeModel>, url: Seq<char>) -> int
    decreases os.len(),
{
    if os.len() == 0 {
        0
    } else {
        url_total_count(os.drop_last(), url) + if os.last().url == url {
            1int
        } else {
            0int
        }
    }
}

/// How many outcomes of the batch hit `url` and succeeded.
pub open spec fn url_success_count(os: Seq<OutcomeModel>, url: Seq<char>) -> int
    decreases os.len(),
{
    if os.len() == 0 {
        0
    } else {
        url_success_count(os.drop_last(), url) + if os.last().url == url && os.last().success {
            1int
        } else {
            0int
        }
    }
}

/// The summed latency of the successful outcomes that hit `url`.
pub open spec fn url_dur_sum(os: Seq<OutcomeModel>, url: Seq<char>) -> int
    decreases os.len(),
{
    if os.len() == 0 {
        0
    } else {
        url_dur_sum(os.drop_last(), url) + if os.last().url == url && os.last().success {
            os.last().duration_ms
        } else {
            0int
        }
    }
}

/// The summed latency of all successful outcomes of the batch.
pub open spec fn global_dur_sum(os: Seq<OutcomeModel>) -> int
    decreases os.len(),
{
    if os.len() == 0 {
        0
    } else {
        global_dur_sum(os.drop_last()) + if os.last().success {
            os.last().duration_ms
        } else {
            0int
        }
    }
}

/// Durations of a batch are representable.
pub open spec fn outcomes_wf(os: Seq<OutcomeModel>) -> bool {
    forall|i: int| 0 <= i < os.len() ==> 0 <= (#[trigger] os[i]).duration_ms <= u64::MAX
}

proof fn lemma_url_counts_bounded(os: Seq<OutcomeModel>, url: Seq<char>)
    ensures
        0 <= url_success_count(os, url) <= url_total_count(os, url) <= os.len(),
    decreases os.len(),
{
    if os.len() > 0 {
        lemma_url_counts_bounded(os.drop_last(), url);
    }
}

proof fn lemma_url_dur_le_global(os: Seq<OutcomeModel>, url: Seq<char>)
    requires
        outcomes_wf(os),
    ensures
        0 <= url_dur_sum(os, url) <= global_dur_sum(os),
    decreases os.len(),
{
    if os.len() > 0 {
        assert(outcomes_wf(os.drop_last()));
        assert(os.drop_last().len() < os.len());
        lemma_url_dur_le_global(os.drop_last(), url);
        assert(0 <= os.last().duration_ms);
    }
}

proof fn lemma_global_dur_prefix(os: Seq<OutcomeModel>, k: int)
    requires
        outcomes_wf(os),
        0 <= k <= os.len(),
    ensures
        global_dur_sum(os.take(k)) <= global_dur_sum(os),
    decreases os.len() - k,
{
    if k == os.len() {
        assert(os.take(k) =~= os);
    } else {
        assert(os.take(k + 1).drop_last() =~= os.take(k));
        assert(os.take(k + 1).last() == os[k]);
        assert(0 <= os[k].duration_ms);
        lemma_global_dur_prefix(os, k + 1);
    }
}

/// Folds a batch into per-URL totals, as the models describe: the result
/// holds one entry per distinct URL of the batch, with its exact request
/// count, success count, and summed success latency.
pub fn url_stats_of(results: &Vec<RequestResult>) -> (r: Vec<UrlStat>)
    requires
        global_dur_sum(outcomes_view(results@)) <= u64::MAX,
    ensures
        forall|i: int, j: int|
            0 <= i < j < r@.len() ==> (#[trigger] r@[i]).url@ != (#[trigger] r@[j]).url@,
        forall|i: int|
            0 <= i < r@.len() ==> {
                let os = outcomes_view(results@);
                &&& (#[trigger] r@[i]).total == url_total_count(os, r@[i].url@)
                &&& r@[i].successful == url_success_count(os, r@[i].url@)
                &&& r@[i].total_duration_ms == url_dur_sum(os, r@[i].url@)
                &&& r@[i].total >= 1
            },
        forall|k: int|
            0 <= k < results@.len() ==> exists|i: int|
                0 <= i < r@.len() && r@[i].url@ == (#[trigger] results@[k]).url@,
{
    let ghost os = outcomes_view(results@);
    proof {
        assert forall|i: int| 0 <= i < os.len() implies 0 <= (#[trigger] os[i]).duration_ms
            <= u64::MAX by {
            assert(os[i] == results@[i]@);
        }
    }
    let mut out: Vec<UrlStat> = Vec::new();
    let mut k: usize = 0;
    let n = results.len();
    proof {
        assert(os.take(0) =~= Seq::<OutcomeModel>::empty());
    }
    while k < n
        invariant
            0 <= k <= n,
            n == results@.len(),
            os == outcomes_view(results@),
            outcomes_wf(os),
            global_dur_sum(os) <= u64::MAX,
            forall|i: int, j: int|
                0 <= i < j < out@.len() ==> (#[trigger] out@[i]).url@ != (#[trigger] out@[j]).url@,
            forall|i: int|
                0 <= i < out@.len() ==> {
                    &&& (#[trigger] out@[i]).total == url_total_count(os.take(k as int), out@[i].url@)
                    &&& out@[i].successful == url_success_count(os.take(k as int), out@[i].url@)
                    &&& out@[i].total_duration_ms == url_dur_sum(os.take(k as int), out@[i].url@)
                    &&& out@[i].total >= 1
                },
            forall|j: int|
                0 <= j < k ==> exists|i: int|
                    0 <= i < out@.len() && out@[i].url@ == (#[trigger] results@[j]).url@,
        decreases n - k,
    {
        let mut found: Option<usize> = None;
        let mut i: usize = 0;
        while i < out.len() && found.is_none()
            invariant
                0 <= i <= out@.len(),
                k < results@.len(),
                found is None ==> forall|j: int|
                    0 <= j < i ==> (#[trigger] out@[j]).url@ != results@[k as int].url@,
                found matches Some(f) ==> 0 <= f < out@.len() && out@[f as int].url@ == results@[
                    k as int
                ].url@,
            decreases out@.len() - i,
        {
            if out[i].url == results[k].url {
                found = Some(i);
            }
            i = i + 1;
        }
        let ghost prev = os.take(k as int);
        let ghost cur = os.take(k as int + 1);
        proof {
            assert(cur.drop_last() =~= prev);
            assert(cur.last() == os[k as int]);
            assert(os[k as int] == results@[k as int]@);
        }
        match found {
            Some(f) => {
                let ghost u = out@[f as int].url@;
                proof {
                    lemma_url_counts_bounded(prev, u);
                    lemma_url_dur_le_global(cur, u);
                    lemma_global_dur_prefix(os, k as int + 1);
                    assert(url_dur_sum(cur, u) <= u64::MAX);
                }
                let success = results[k].success;
                let dur = results[k].duration_ms;
                let ghost out_before = out@;
                out[f].total = out[f].total + 1;
                if success {
                    out[f].successful = out[f].successful + 1;
                    out[f].total_duration_ms = out[f].total_duration_ms + dur;
                }
                proof {
                    assert forall|i2: int| 0 <= i2 < out@.len() implies (#[trigger]
                    out@[i2]).url@ == out_before[i2].url@ by {}
                    assert forall|i2: int| 0 <= i2 < out@.len() implies {
                        &&& (#[trigger] out@[i2]).total == url_total_count(cur, out@[i2].url@)
                        &&& out@[i2].successful == url_success_count(cur, out@[i2].url@)
                        &&& out@[i2].total_duration_ms == url_dur_sum(cur, out@[i2].url@)
                        &&& out@[i2].total >= 1
                    } by {
                        if i2 != f {
                            assert(out@[i2].url@ != os[k as int].url);
                        }
                    }
                    assert forall|j: int| 0 <= j < k + 1 implies exists|i2: int|
                        0 <= i2 < out@.len() && out@[i2].url@ == (#[trigger] results@[j]).url@ by {
                        if j < k {
                            let w = choose|i2: int|
                                0 <= i2 < out_before.len() && out_before[i2].url@ == results@[
                                j].url@;
                            assert(out@[w].url@ == results@[j].url@);
                        } else {
                            assert(out@[f as int].url@ == results@[k as int].url@);
                        }
                    }
                }
            },
            None => {
                let success = results[k].success;
                let dur = results[k].duration_ms;
                let url_copy = String::from_str(results[k].url.as_str());
                let entry = UrlStat {
                    url: url_copy,
                    successful: if success {
                        1
                    } else {
                        0
                    },
                    total: 1,
                    total_duration_ms: if success {
                        dur
                    } else {
                        0
                    },
                };
                let ghost out_before = out@;
                out.push(entry);
                proof {
                    let u = os[k as int].url;
                    assert(out@.drop_last() =~= out_before);
                    assert(os[k as int] == results@[k as int]@);
                    assert forall|i2: int| 0 <= i2 < out_before.len() implies (#[trigger]
                    out_before[i2]).url@ != u by {}
                    assert forall|j: int| 0 <= j < prev.len() implies exists|i2: int|
                        0 <= i2 < out_before.len() && out_before[i2].url@ == (#[trigger]
                        prev[j]).url by {
                        assert(prev[j] == os[j]);
                        assert(os[j] == results@[j]@);
                        let w = choose|i2: int|
                            0 <= i2 < out_before.len() && out_before[i2].url@ == results@[j].url@;
                        assert(out_before[w].url@ == prev[j].url);
                    }
                    lemma_url_count_zero(prev, out_before, u);
                    lemma_url_counts_bounded(prev, u);
                    assert forall|i2: int| 0 <= i2 < out@.len() implies {
                        &&& (#[trigger] out@[i2]).total == url_total_count(cur, out@[i2].url@)
                        &&& out@[i2].successful == url_success_count(cur, out@[i2].url@)
                        &&& out@[i2].total_duration_ms == url_dur_sum(cur, out@[i2].url@)
                        &&& out@[i2].total >= 1
                    } by {
                        if i2 < out@.len() - 1 {
                            assert(out@[i2] == out_before[i2]);
                            assert(out@[i2].url@ != os[k as int].url);
                        }
                    }
                    assert forall|j: int| 0 <= j < k + 1 implies exists|i2: int|
                        0 <= i2 < out@.len() && out@[i2].url@ == (#[trigger] results@[j]).url@ by {
                        if j < k {
                            let w = choose|i2: int|
                                0 <= i2 < out_before.len() && out_before[i2].url@ == results@[
                                j].url@;
                            assert(out@[w].url@ == results@[j].url@);
                        } else {
                            assert(out@[out@.len() - 1].url@ == results@[k as int].url@);
                        }
                    }
                }
            },
        }
        k = k + 1;
    }
    proof {
        assert(os.take(n as int) =~= os);
    }
    out
}

/// The positions of the failed outcomes of a batch, in order.
pub open spec fn fail_idxs(os: Seq<OutcomeModel>) -> Seq<int>
    decreases os.len(),
{
    if os.len() == 0 {
        Seq::empty()
    } else {
        fail_idxs(os.drop_last()) + if os.last().success {
            Seq::empty()
        } else {
            seq![os.len() - 1]
        }
    }
}

/// Picks the positions of the first `k` failed outcomes (all of them if
/// fewer failed), for the failure sample of a run's report.
pub fn first_failure_indices(results: &Vec<RequestResult>, k: usize) -> (r: Vec<usize>)
    ensures
        ({
            let fs = fail_idxs(outcomes_view(results@));
            r@.map_values(|u: usize| u as int) =~= if fs.len() <= k {
                fs
            } else {
                fs.take(k as int)
            }
        }),
        forall|i: int| 0 <= i < r@.len() ==> r@[i] < results@.len() && !results@[r@[i] as int]@.success,
{
    let ghost os = outcomes_view(results@);
    let mut out: Vec<usize> = Vec::new();
    let mut i: usize = 0;
    let n = results.len();
    proof {
        assert(os.take(0) =~= Seq::<OutcomeModel>::empty());
        assert(out@.map_values(|u: usize| u as int) =~= fail_idxs(os.take(0)));
    }
    while i < n
        invariant
            0 <= i <= n,
            n == results@.len(),
            os == outcomes_view(results@),
            out@.len() <= k,
            ({
                let fs = fail_idxs(os.take(i as int));
                out@.map_values(|u: usize| u as int) =~= if fs.len() <= k {
                    fs
                } else {
                    fs.take(k as int)
                }
            }),
            forall|j: int|
                0 <= j < out@.len() ==> out@[j] < i && !results@[out@[j] as int]@.success,
        decreases n - i,
    {
        let ghost fs_prev = fail_idxs(os.take(i as int));
        let ghost fs_cur = fail_idxs(os.take(i + 1));
        proof {
            assert(os.take(i + 1).drop_last() =~= os.take(i as int));
            assert(os.take(i + 1).last() == os[i as int]);
            assert(os[i as int] == results@[i as int]@);
        }
        if !results[i].success && out.len() < k {
            out.push(i);
            proof {
                assert(fs_cur =~= fs_prev + seq![i as int]);
                assert(fs_prev.len() < k ==> out@.map_values(|u: usize| u as int) =~= fs_cur);
                if fs_cur.len() > k {
                    assert(fs_cur.take(k as int) =~= fs_prev.take(k as int));
                }
            }
        } else {
            proof {
                if results@[i as int]@.success {
                    assert(fs_cur =~= fs_prev);
                } else {
                    assert(fs_cur =~= fs_prev + seq![i as int]);
                    assert(out@.len() == k);
                    assert(fs_prev.len() >= k);
                    assert(fs_cur.take(k as int) =~= fs_prev.take(k as int));
                    if fs_prev.len() <= k {
                        assert(fs_prev.take(k as int) =~= fs_prev);
                    }
                }
            }
        }
        i = i + 1;
    }
    proof {
        assert(os.take(n as int) =~= os);
    }
    out
}

/// A URL that no prior entry holds has zero counts over the prefix whose
/// every outcome is covered by the entries.
proof fn lemma_url_count_zero(os: Seq<OutcomeModel>, entries: Seq<UrlStat>, u: Seq<char>)
    requires
        forall|i: int| 0 <= i < entries.len() ==> (#[trigger] entries[i]).url@ != u,
        forall|j: int|
            0 <= j < os.len() ==> exists|i: int|
                0 <= i < entries.len() && entries[i].url@ == (#[trigger] os[j]).url,
    ensures
        url_total_count(os, u) == 0,
        url_success_count(os, u) == 0,
        url_dur_sum(os, u) == 0,
    decreases os.len(),
{
    if os.len() > 0 {
        assert(os.last() == os[os.len() - 1]);
        assert(os.last().url != u);
        assert forall|j: int| 0 <= j < os.drop_last().len() implies exists|i: int|
            0 <= i < entries.len() && entries[i].url@ == (#[trigger] os.drop_last()[j]).url by {
            assert(os.drop_last()[j] == os[j]);
        }
        lemma_url_count_zero(os.drop_last(), entries, u);
    }
}

} // verus!
