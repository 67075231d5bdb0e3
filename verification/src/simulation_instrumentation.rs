use vstd::prelude::*;
use crate::fee_point::FeePoint;
use crate::fee_stats::{fee_rank, is_rank_fee};

verus! {

/// Parameters of the fee model.
#[derive(Debug, Clone, Copy)]
pub struct FeeModelConfig {
    pub min_fee: u64,
    pub max_fee: u64,
    pub base_reserve: u64,
    pub ledger_capacity: u64,
}

/// Fee estimates: percentiles of the sampled fees.
#[derive(Debug, Clone, Copy)]
pub struct FeeEstimate {
    /// The 50th percentile.
    pub recommended: u64,
    /// The 10th percentile.
    pub low: u64,
    /// The 25th percentile.
    pub medium: u64,
    /// The 75th percentile.
    pub high: u64,
    /// How many fees were sampled.
    pub sample_count: usize,
}

/// Network congestion levels.
#[derive(Debug, Clone, Copy, PartialEq, Eq, Structural)]
pub enum CongestionLevel {
    Low,
    Medium,
    High,
    Extreme,
}

/// The fee model.
#[derive(Debug, Clone, Copy)]
pub struct FeeModel {
    /// Its parameters.
    pub config: FeeModelConfig,
}

/// The rank of the `p`-th percentile among `n` samples: `n * p / 100`.
pub open spec fn percentile_rank(n: nat, p: nat) -> int {
    (n * p / 100) as int
}

/// `m` is the `p`-th percentile of the sampled fees (zero for no samples).
pub open spec fn is_percentile(s: Seq<FeePoint>, p: nat, m: u64) -> bool {
    if s.len() == 0 { m == 0 } else { is_rank_fee(s, percentile_rank(s.len(), p), m) }
}

fn percentile(samples: &[FeePoint], p: usize) -> (m: u64)
    requires
        p < 100,
    ensures
        is_percentile(samples@, p as nat, m),
{
    if samples.len() == 0 {
        return 0;
    }
    let n = samples.len();
    assert((n as u128) * (p as u128) <= 0xffff_ffff_ffff_ffff * 100) by (nonlinear_arith)
        requires n <= 0xffff_ffff_ffff_ffff, p < 100;
    let wide: u128 = (n as u128) * (p as u128) / 100;
    assert(wide < n) by (nonlinear_arith)
        requires wide == (n as int) * (p as int) / 100, p < 100, n > 0;
    let rank = wide as usize;
    fee_rank(samples, rank)
}

impl FeeModel {
    /// Fee estimates from sampled fees: the 50th percentile recommended, the
    /// 10th low, the 25th medium, the 75th high; the `p`-th percentile is the
    /// fee at index `len * p / 100` of the fees in increasing order.
    pub fn estimate(&self, samples: &[FeePoint]) -> (e: FeeEstimate)
        ensures
            is_percentile(samples@, 50, e.recommended),
            is_percentile(samples@, 10, e.low),
            is_percentile(samples@, 25, e.medium),
            is_percentile(samples@, 75, e.high),
            e.sample_count == samples@.len(),
    {
        FeeEstimate {
            recommended: percentile(samples, 50),
            low: percentile(samples, 10),
            medium: percentile(samples, 25),
            high: percentile(samples, 75),
            sample_count: samples.len(),
        }
    }
}

} // verus!
