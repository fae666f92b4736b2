//! Latency statistics of one route over a sliding window of samples.
use std::collections::VecDeque;
use vstd::prelude::*;

verus! {

/// How many of the latest samples a route keeps.
pub const MAX_SAMPLES: usize = 128;

/// The sum of the samples.
pub open spec fn seq_sum(s: Seq<u64>) -> nat
    decreases s.len(),
{
    if s.len() == 0 {
        0
    } else {
        seq_sum(s.drop_first()) + s[0] as nat
    }
}

/// The window after `x` arrives: the oldest sample leaves when the window
/// is full.
pub open spec fn window_push(s: Seq<u64>, x: u64) -> Seq<u64> {
    if s.len() >= MAX_SAMPLES {
        s.drop_first().push(x)
    } else {
        s.push(x)
    }
}

/// The mean of the samples rounded down, 0 when there are none.
pub open spec fn mean(s: Seq<u64>) -> nat {
    if s.len() == 0 {
        0
    } else {
        seq_sum(s) / s.len()
    }
}

/// Adding at the back adds to the sum.
pub proof fn lemma_sum_push(s: Seq<u64>, x: u64)
    ensures
        seq_sum(s.push(x)) == seq_sum(s) + x,
    decreases s.len(),
{
    if s.len() > 0 {
        lemma_sum_push(s.drop_first(), x);
        assert(s.push(x).drop_first() =~= s.drop_first().push(x));
        assert(s.push(x)[0] == s[0]);
    } else {
        assert(s.push(x).drop_first() =~= Seq::<u64>::empty());
        assert(seq_sum(Seq::<u64>::empty()) == 0);
        assert(s.push(x)[0] == x);
    }
}

/// Every sample lies between `lo` and `hi`, so the sum lies between
/// `len * lo` and `len * hi`.
pub proof fn lemma_sum_bounds(s: Seq<u64>, lo: nat, hi: nat)
    requires
        forall|i: int| 0 <= i < s.len() ==> lo <= #[trigger] s[i] <= hi,
    ensures
        s.len() * lo <= seq_sum(s) <= s.len() * hi,
    decreases s.len(),
{
    if s.len() > 0 {
        lemma_sum_bounds(s.drop_first(), lo, hi);
        assert(s.len() * lo == (s.len() - 1) * lo + lo) by (nonlinear_arith);
        assert(s.len() * hi == (s.len() - 1) * hi + hi) by (nonlinear_arith);
    }
}

/// The mean of the window lies between its smallest and its largest sample.
pub proof fn lemma_mean_within(s: Seq<u64>, lo: nat, hi: nat)
    requires
        s.len() > 0,
        forall|i: int| 0 <= i < s.len() ==> lo <= #[trigger] s[i] <= hi,
    ensures
        lo <= mean(s) <= hi,
{
    lemma_sum_bounds(s, lo, hi);
    let n = s.len();
    let t = seq_sum(s);
    vstd::arithmetic::div_mod::lemma_div_is_ordered((n * lo) as int, t as int, n as int);
    vstd::arithmetic::div_mod::lemma_div_is_ordered(t as int, (n * hi) as int, n as int);
    vstd::arithmetic::div_mod::lemma_div_multiples_vanish(lo as int, n as int);
    vstd::arithmetic::div_mod::lemma_div_multiples_vanish(hi as int, n as int);
}

/// The latency samples of one route and their running sum.
#[derive(Debug)]
pub struct RouteStats {
    pub samples: VecDeque<u64>,
    pub sum: u128,
}

impl RouteStats {
    /// At most [`MAX_SAMPLES`] samples, and `sum` is their sum.
    pub open spec fn wf(self) -> bool {
        &&& self.samples@.len() <= MAX_SAMPLES
        &&& self.sum == seq_sum(self.samples@)
    }

    /// Empty statistics with room for `cap` samples.
    pub fn with_capacity(cap: usize) -> (r: Self)
        ensures
            r.wf(),
            r.samples@ == Seq::<u64>::empty(),
    {
        RouteStats { samples: VecDeque::with_capacity(cap), sum: 0 }
    }

    /// Records one latency; when [`MAX_SAMPLES`] are held, the oldest leaves.
    pub fn add(&mut self, latency: u64)
        requires
            old(self).wf(),
        ensures
            final(self).wf(),
            final(self).samples@ == window_push(old(self).samples@, latency),
    {
        if self.samples.len() == MAX_SAMPLES {
            let ghost s = self.samples@;
            if let Some(old) = self.samples.pop_front() {
                assert(seq_sum(s) == seq_sum(s.drop_first()) + old);
                self.sum = self.sum - old as u128;
            }
        }
        let ghost before = self.samples@;
        proof {
            lemma_sum_bounds(before, 0, u64::MAX as nat);
            lemma_sum_push(before, latency);
            assert(before.len() * (u64::MAX as nat) <= 127 * (u64::MAX as nat)) by (
            nonlinear_arith)
                requires
                    before.len() <= 127,
            ;
        }
        self.samples.push_back(latency);
        self.sum = self.sum + latency as u128;
    }

    /// The mean of the held samples, rounded down; 0 when there are none.
    pub fn average(&self) -> (r: u64)
        requires
            self.wf(),
        ensures
            r == mean(self.samples@),
    {
        if self.samples.len() == 0 {
            0
        } else {
            let n = self.samples.len() as u128;
            proof {
                lemma_sum_bounds(self.samples@, 0, u64::MAX as nat);
                let t = self.sum as int;
                let m = u64::MAX as int;
                vstd::arithmetic::div_mod::lemma_div_is_ordered(t, n * m, n as int);
                vstd::arithmetic::div_mod::lemma_div_multiples_vanish(m, n as int);
            }
            (self.sum / n) as u64
        }
    }
}

} // verus!
