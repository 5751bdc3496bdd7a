//! Success rates: fractions of counts, in double precision.

use super::double::{
    lemma_nearest_at_most_one, lemma_nearest_is_close, lemma_significant_monotone, lemma_small_is_exact, nearest,
    rounded, significant, to_significant, Double,
};
use vstd::arithmetic::power2::{lemma2_to64, pow2};
use vstd::prelude::*;

verus! {

/// The rate `part / whole`.
#[derive(Debug, Clone, Copy, PartialEq, Eq, Structural)]
pub struct Rate {
    pub part: u64,
    pub whole: u64,
}

impl Rate {
    /// Whether the rate has a value.
    pub open spec fn wf(self) -> bool {
        self.whole > 0
    }

    /// The fraction of `attempts` that were `successes`; `0` when there were
    /// no attempts.
    pub open spec fn of(successes: nat, attempts: nat) -> Rate {
        if attempts == 0 {
            Rate { part: 0, whole: 1 }
        } else {
            Rate { part: successes as u64, whole: attempts as u64 }
        }
    }

    /// The fraction of `attempts` that were `successes`; `0` when there were
    /// no attempts.
    pub fn from_counts(successes: usize, attempts: usize) -> (r: Rate)
        ensures
            r == Rate::of(successes as nat, attempts as nat),
            r.wf(),
    {
        if attempts == 0 {
            Rate { part: 0, whole: 1 }
        } else {
            Rate { part: successes as u64, whole: attempts as u64 }
        }
    }

    /// The rate in double precision: both counts as doubles, then their
    /// quotient.
    pub open spec fn quotient(self) -> (nat, nat) {
        nearest(significant(self.part as nat, 1), significant(self.whole as nat, 1), 0)
    }

    /// The rate as a double.
    pub open spec fn double(self) -> Double {
        Double { mantissa: self.quotient().0 as u128, places: self.quotient().1 as u32 }
    }

    /// The rate as a double.
    pub fn value(&self) -> (r: Double)
        requires
            self.wf(),
        ensures
            r == self.double(),
            r.is(self.quotient()),
            r.wf(),
    {
        let part = to_significant(self.part as u128, 1);
        let whole = to_significant(self.whole as u128, 1);
        Double::closest(part, whole, 0)
    }

    /// The percentage with one decimal, e.g. `66.7`.
    pub open spec fn percent(self) -> Seq<char> {
        self.double().percent()
    }

    /// The percentage with one decimal, e.g. `66.7`.
    pub fn percent_text(&self) -> (out: String)
        requires
            self.wf(),
        ensures
            out@ == self.percent(),
    {
        self.value().percent_text()
    }

    /// The fraction with four decimals, e.g. `0.6667`.
    pub open spec fn decimal(self) -> Seq<char> {
        self.double().decimal()
    }

    /// The fraction with four decimals, e.g. `0.6667`.
    pub fn decimal_text(&self) -> (out: String)
        requires
            self.wf(),
        ensures
            out@ == self.decimal(),
    {
        self.value().decimal_text()
    }
}

/// A success rate lies between zero and one: where no more succeeded than was
/// attempted, the rate does not exceed one.
pub proof fn lemma_rate_is_at_most_one(successes: nat, attempts: nat)
    requires
        successes <= attempts <= usize::MAX,
    ensures
        !(Double { mantissa: 1, places: 0 }).below(Rate::of(successes, attempts).double()),
{
    let rate = Rate::of(successes, attempts);
    let part = significant(rate.part as nat, 1);
    let whole = significant(rate.whole as nat, 1);
    lemma2_to64();
    assert(rounded(1, 1) == 1);
    assert(significant(1, 1) == 1);
    lemma_significant_monotone(1, rate.whole as nat, 1);
    lemma_significant_monotone(rate.part as nat, rate.whole as nat, 1);
    assert(part <= pow2(0) * whole);
    lemma_nearest_at_most_one(part, whole, 0);
    let m = rate.double().mantissa as int;
    assert(m * pow2(0) == m) by (nonlinear_arith)
        requires
            pow2(0) == 1,
    ;
    assert(!(1 * pow2(rate.double().places as nat) < m * pow2(0)));
}

/// A success rate is the successes over the attempts, and zero where nothing was
/// attempted.
pub proof fn lemma_rate_is_the_quotient_of_the_counts(successes: nat, attempts: nat)
    requires
        successes <= attempts <= usize::MAX,
    ensures
        Rate::of(successes, attempts).wf(),
        attempts > 0 ==> Rate::of(successes, attempts).part * attempts == successes * Rate::of(
            successes,
            attempts,
        ).whole,
        attempts == 0 ==> Rate::of(successes, attempts).part == 0,
{
}

/// The double of a success rate errs from the quotient of the counts by at most
/// half a unit of its last binary place, for counts below 2^53.
pub proof fn lemma_rate_is_close_to_the_quotient(successes: nat, attempts: nat)
    requires
        successes <= attempts < 0x20_0000_0000_0000,
        attempts > 0,
        attempts <= usize::MAX,
    ensures
        ({
            let d = Rate::of(successes, attempts).double();
            -(attempts as int) <= 2 * (d.mantissa * attempts - successes * pow2(d.places as nat)) <= attempts
        }),
{
    let rate = Rate::of(successes, attempts);
    lemma_small_is_exact(successes);
    lemma_small_is_exact(attempts);
    assert(successes < 0x20_0000_0000_0000 * attempts);
    lemma_nearest_is_close(successes, attempts, 0);
    lemma2_to64();
    assert(successes <= pow2(0) * attempts) by (nonlinear_arith)
        requires
            successes <= attempts,
            pow2(0) == 1,
    ;
    lemma_nearest_at_most_one(successes, attempts, 0);
}

} // verus!
