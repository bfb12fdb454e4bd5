//! Energy records: the scheduling priority of one named artifact (a library
//! API or an accepted seed), derived from coverage and usage counters.
//!
//! Coverage is carried as an integer in parts per million of
//! `COVERAGE_SCALE`, and an energy is an exact non-negative rational
//! `num / den`, so the power-schedule formula
//! `(1 - coverage) / ((1 + exec_count) * (1 + prompt_count)) ^ exponent`
//! is stated and proved over plain integers.

use vstd::prelude::*;
use vstd::arithmetic::power::pow;
use vstd::arithmetic::power::lemma_pow_positive;
use vstd::arithmetic::mul::lemma_mul_inequality;
use vstd::arithmetic::mul::lemma_mul_strict_inequality;
use vstd::arithmetic::mul::lemma_mul_left_inequality;

verus! {

/// Full coverage, in parts per million: a coverage fraction of 1.0.
pub const COVERAGE_SCALE: u64 = 1000000;

/// An exact non-negative rational number `num / den`.
#[derive(Clone, Copy, Debug, PartialEq, Eq, Structural)]
pub struct Energy {
    pub num: u64,
    pub den: u64,
}

impl Energy {
    /// A well-formed energy has a positive denominator, so its value is a
    /// finite, non-negative rational.
    pub open spec fn wf(self) -> bool {
        self.den >= 1
    }

    /// `self < other` as rationals, by cross multiplication.
    pub open spec fn value_lt(self, other: Energy) -> bool {
        (self.num as int) * (other.den as int) < (other.num as int) * (self.den as int)
    }

    /// `self == other` as rationals, by cross multiplication.
    pub open spec fn value_eq(self, other: Energy) -> bool {
        (self.num as int) * (other.den as int) == (other.num as int) * (self.den as int)
    }

    /// The energy is zero exactly when its numerator is.
    pub open spec fn is_zero(self) -> bool {
        self.num == 0
    }
}

/// `x` clamped to the range of `u64`.
pub open spec fn sat64(x: int) -> u64 {
    if x > u64::MAX {
        u64::MAX
    } else {
        x as u64
    }
}

/// The numerator of the power-schedule energy: the uncovered fraction, in
/// parts per million.
pub open spec fn energy_num(coverage: nat) -> int {
    COVERAGE_SCALE - coverage
}

/// The exact denominator of the power-schedule energy:
/// `COVERAGE_SCALE * ((1 + exec_count) * (1 + prompt_count)) ^ exponent`.
/// The scale factor pairs with the scaled numerator so that the quotient is
/// the true fraction `(1 - coverage) / ((1+exec)(1+prompt))^exponent`.
pub open spec fn energy_den_exact(exec_count: nat, prompt_count: nat, exponent: nat) -> int {
    (COVERAGE_SCALE as int) * pow((1 + exec_count as int) * (1 + prompt_count as int), exponent)
}

/// Multiplication on `u64` that clamps on overflow.
pub fn sat_mul_u64(a: u64, b: u64) -> (r: u64)
    ensures
        r == sat64((a as int) * (b as int)),
{
    match a.checked_mul(b) {
        Some(v) => v,
        None => u64::MAX,
    }
}

/// Addition on `u64` that clamps on overflow.
pub fn sat_add_u64(a: u64, b: u64) -> (r: u64)
    ensures
        r == sat64((a as int) + (b as int)),
{
    a.saturating_add(b)
}

/// Clamped multiplication composes: clamping the factors first loses
/// nothing, as long as both factors are at least one.
proof fn lemma_sat_mul_compose(a: int, b: int)
    requires
        a >= 1,
        b >= 1,
    ensures
        sat64((sat64(a) as int) * (sat64(b) as int)) == sat64(a * b),
{
    let m = u64::MAX as int;
    if a <= m && b <= m {
    } else if a > m {
        assert(a * b >= a * 1) by {
            lemma_mul_left_inequality(a, 1, b);
        }
        assert((sat64(a) as int) * (sat64(b) as int) >= m * 1) by {
            lemma_mul_inequality(1, sat64(b) as int, m);
        }
    } else {
        assert(a * b >= 1 * b) by {
            lemma_mul_inequality(1, a, b);
        }
        assert(a * b >= b);
        assert((sat64(a) as int) * (sat64(b) as int) >= 1 * m) by {
            lemma_mul_inequality(1, sat64(a) as int, m);
        }
    }
}

/// The exact energy denominator is at least `COVERAGE_SCALE`, hence positive.
pub proof fn lemma_energy_den_positive(exec_count: nat, prompt_count: nat, exponent: nat)
    ensures
        energy_den_exact(exec_count, prompt_count, exponent) >= COVERAGE_SCALE as int,
{
    let base = (1 + exec_count) * (1 + prompt_count);
    assert(base >= 1) by {
        lemma_mul_inequality(1, 1 + exec_count as int, 1 + prompt_count as int);
        lemma_mul_left_inequality(1 + exec_count as int, 1, 1 + prompt_count as int);
    }
    assert(pow(base as int, exponent) >= 1) by {
        vstd::arithmetic::power::lemma_pow_increases(base, 0, exponent);
        vstd::arithmetic::power::lemma_pow0(base as int);
        lemma_pow_positive(base as int, exponent);
    }
    lemma_mul_left_inequality(COVERAGE_SCALE as int, 1, pow(base as int, exponent));
}

/// Raising a larger base to the same positive power gives a strictly larger
/// result.
proof fn lemma_pow_base_strict(b1: int, b2: int, e: nat)
    requires
        1 <= b1 < b2,
        e >= 1,
    ensures
        pow(b1, e) < pow(b2, e),
    decreases e,
{
    if e == 1 {
        assert(pow(b1, 1) == b1) by {
            vstd::arithmetic::power::lemma_pow1(b1);
        }
        assert(pow(b2, 1) == b2) by {
            vstd::arithmetic::power::lemma_pow1(b2);
        }
    } else {
        lemma_pow_base_strict(b1, b2, (e - 1) as nat);
        lemma_pow_positive(b1, (e - 1) as nat);
        lemma_pow_positive(b2, (e - 1) as nat);
        assert(pow(b1, e) == b1 * pow(b1, (e - 1) as nat)) by {
            reveal(pow);
        }
        assert(pow(b2, e) == b2 * pow(b2, (e - 1) as nat)) by {
            reveal(pow);
        }
        assert(b1 * pow(b1, (e - 1) as nat) <= b1 * pow(b2, (e - 1) as nat)) by {
            lemma_mul_left_inequality(b1, pow(b1, (e - 1) as nat), pow(b2, (e - 1) as nat));
        }
        assert(b1 * pow(b2, (e - 1) as nat) < b2 * pow(b2, (e - 1) as nat)) by {
            lemma_mul_strict_inequality(b1, b2, pow(b2, (e - 1) as nat));
        }
    }
}

/// More executions strictly grow the exact denominator, when the exponent is
/// positive.
pub proof fn lemma_energy_den_strict_exec(e1: nat, e2: nat, prompt_count: nat, exponent: nat)
    requires
        e1 < e2,
        exponent >= 1,
    ensures
        energy_den_exact(e1, prompt_count, exponent) < energy_den_exact(e2, prompt_count, exponent),
{
    let b1 = (1 + e1) * (1 + prompt_count);
    let b2 = (1 + e2) * (1 + prompt_count);
    assert(b1 >= 1 && b1 < b2) by {
        lemma_mul_inequality(1, 1 + e1 as int, 1 + prompt_count as int);
        lemma_mul_left_inequality(1 + e1 as int, 1, 1 + prompt_count as int);
        lemma_mul_strict_inequality(1 + e1 as int, 1 + e2 as int, 1 + prompt_count as int);
    }
    lemma_pow_base_strict(b1 as int, b2 as int, exponent);
    lemma_mul_strict_inequality(
        pow(b1 as int, exponent),
        pow(b2 as int, exponent),
        COVERAGE_SCALE as int,
    );
}

/// More prompt appearances strictly grow the exact denominator, when the
/// exponent is positive.
pub proof fn lemma_energy_den_strict_prompt(exec_count: nat, p1: nat, p2: nat, exponent: nat)
    requires
        p1 < p2,
        exponent >= 1,
    ensures
        energy_den_exact(exec_count, p1, exponent) < energy_den_exact(exec_count, p2, exponent),
{
    let b1 = (1 + exec_count) * (1 + p1);
    let b2 = (1 + exec_count) * (1 + p2);
    assert(b1 >= 1 && b1 < b2) by {
        lemma_mul_inequality(1, 1 + exec_count as int, 1 + p1 as int);
        lemma_mul_left_inequality(1 + exec_count as int, 1, 1 + p1 as int);
        lemma_mul_strict_inequality(1 + p1 as int, 1 + p2 as int, 1 + exec_count as int);
    }
    lemma_pow_base_strict(b1 as int, b2 as int, exponent);
    lemma_mul_strict_inequality(
        pow(b1 as int, exponent),
        pow(b2 as int, exponent),
        COVERAGE_SCALE as int,
    );
}

/// Law: for any valid coverage fraction and any counters, the power-schedule
/// energy is a finite, non-negative rational: its numerator is at least zero
/// and its exact denominator is strictly positive.
pub proof fn lemma_energy_finite_nonneg(
    coverage: nat,
    exec_count: nat,
    prompt_count: nat,
    exponent: nat,
)
    requires
        coverage <= COVERAGE_SCALE,
    ensures
        energy_num(coverage) >= 0,
        energy_den_exact(exec_count, prompt_count, exponent) >= 1,
{
    lemma_energy_den_positive(exec_count, prompt_count, exponent);
}

/// Law: with a positive exponent and coverage strictly under one, the
/// power-schedule energy strictly decreases in the execution count, the
/// other inputs held fixed: cross-multiplied,
/// `num / den(e2) < num / den(e1)` whenever `e1 < e2`.
pub proof fn lemma_energy_strictly_decreasing_in_exec(
    coverage: nat,
    e1: nat,
    e2: nat,
    prompt_count: nat,
    exponent: nat,
)
    requires
        coverage < COVERAGE_SCALE,
        e1 < e2,
        exponent >= 1,
    ensures
        energy_num(coverage) * energy_den_exact(e1, prompt_count, exponent) < energy_num(
            coverage,
        ) * energy_den_exact(e2, prompt_count, exponent),
{
    lemma_energy_den_strict_exec(e1, e2, prompt_count, exponent);
    lemma_mul_strict_inequality(
        energy_den_exact(e1, prompt_count, exponent),
        energy_den_exact(e2, prompt_count, exponent),
        energy_num(coverage),
    );
    vstd::arithmetic::mul::lemma_mul_is_commutative(
        energy_den_exact(e1, prompt_count, exponent),
        energy_num(coverage),
    );
    vstd::arithmetic::mul::lemma_mul_is_commutative(
        energy_den_exact(e2, prompt_count, exponent),
        energy_num(coverage),
    );
}

/// Law: with a positive exponent and coverage strictly under one, the
/// power-schedule energy strictly decreases in the prompt count, the other
/// inputs held fixed.
pub proof fn lemma_energy_strictly_decreasing_in_prompt(
    coverage: nat,
    exec_count: nat,
    p1: nat,
    p2: nat,
    exponent: nat,
)
    requires
        coverage < COVERAGE_SCALE,
        p1 < p2,
        exponent >= 1,
    ensures
        energy_num(coverage) * energy_den_exact(exec_count, p1, exponent) < energy_num(
            coverage,
        ) * energy_den_exact(exec_count, p2, exponent),
{
    lemma_energy_den_strict_prompt(exec_count, p1, p2, exponent);
    lemma_mul_strict_inequality(
        energy_den_exact(exec_count, p1, exponent),
        energy_den_exact(exec_count, p2, exponent),
        energy_num(coverage),
    );
    vstd::arithmetic::mul::lemma_mul_is_commutative(
        energy_den_exact(exec_count, p1, exponent),
        energy_num(coverage),
    );
    vstd::arithmetic::mul::lemma_mul_is_commutative(
        energy_den_exact(exec_count, p2, exponent),
        energy_num(coverage),
    );
}

/// A scheduled seed: one named artifact with its counters and its current
/// energy.
pub struct Seed {
    pub name: String,
    /// Branch-coverage fraction in parts per million of `COVERAGE_SCALE`.
    pub coverage: u32,
    pub exec_count: u32,
    pub prompt_count: u32,
    pub energy: Energy,
}

impl Seed {
    /// A seed is well formed when its coverage is a valid fraction and its
    /// energy has a positive denominator.
    pub open spec fn wf(self) -> bool {
        self.coverage <= COVERAGE_SCALE && self.energy.wf()
    }

    /// The energy the power schedule assigns to these counters: numerator
    /// `COVERAGE_SCALE - coverage`, denominator the exact formula value
    /// clamped to `u64`.
    pub open spec fn scheduled_energy(
        coverage: nat,
        exec_count: nat,
        prompt_count: nat,
        exponent: nat,
    ) -> Energy {
        Energy {
            num: sat64(energy_num(coverage)),
            den: sat64(energy_den_exact(exec_count, prompt_count, exponent)),
        }
    }

    /// Recompute this seed's energy from its counters under the given
    /// exponent, store it, and return it.
    pub fn compute_energy(&mut self, exponent: u32) -> (r: Energy)
        requires
            old(self).coverage <= COVERAGE_SCALE,
        ensures
            r == Seed::scheduled_energy(
                old(self).coverage as nat,
                old(self).exec_count as nat,
                old(self).prompt_count as nat,
                exponent as nat,
            ),
            r.wf(),
            final(self).energy == r,
            final(self).name == old(self).name,
            final(self).coverage == old(self).coverage,
            final(self).exec_count == old(self).exec_count,
            final(self).prompt_count == old(self).prompt_count,
    {
        let ghost base_exact: int = (1 + old(self).exec_count as int) * (1 + old(
            self,
        ).prompt_count as int);
        let base: u64 = sat_mul_u64(1 + (self.exec_count as u64), 1 + (self.prompt_count as u64));
        let mut den: u64 = COVERAGE_SCALE;
        let mut k: u32 = 0;
        proof {
            vstd::arithmetic::power::lemma_pow0(base_exact);
        }
        while k < exponent
            invariant
                base == sat64(base_exact),
                base_exact == (1 + old(self).exec_count as int) * (1 + old(
                    self,
                ).prompt_count as int),
                k <= exponent,
                den == sat64((COVERAGE_SCALE as int) * pow(base_exact, k as nat)),
            decreases exponent - k,
        {
            proof {
                lemma_mul_inequality(1, 1 + old(self).exec_count as int, 1 + old(
                    self,
                ).prompt_count as int);
                lemma_mul_left_inequality(
                    1 + old(self).exec_count as int,
                    1,
                    1 + old(self).prompt_count as int,
                );
                lemma_pow_positive(base_exact, k as nat);
                lemma_mul_left_inequality(COVERAGE_SCALE as int, 1, pow(base_exact, k as nat));
                lemma_sat_mul_compose((COVERAGE_SCALE as int) * pow(base_exact, k as nat), base_exact);
                assert((COVERAGE_SCALE as int) * pow(base_exact, k as nat) * base_exact
                    == (COVERAGE_SCALE as int) * pow(base_exact, (k + 1) as nat)) by {
                    assert(pow(base_exact, (k + 1) as nat) == base_exact * pow(
                        base_exact,
                        k as nat,
                    )) by {
                        reveal(pow);
                    }
                    vstd::arithmetic::mul::lemma_mul_is_associative(
                        COVERAGE_SCALE as int,
                        pow(base_exact, k as nat),
                        base_exact,
                    );
                    vstd::arithmetic::mul::lemma_mul_is_commutative(
                        pow(base_exact, k as nat),
                        base_exact,
                    );
                    vstd::arithmetic::mul::lemma_mul_is_associative(
                        COVERAGE_SCALE as int,
                        base_exact,
                        pow(base_exact, k as nat),
                    );
                }
            }
            den = sat_mul_u64(den, base);
            k = k + 1;
        }
        proof {
            lemma_energy_den_positive(
                old(self).exec_count as nat,
                old(self).prompt_count as nat,
                exponent as nat,
            );
        }
        let num: u64 = COVERAGE_SCALE - (self.coverage as u64);
        let e = Energy { num, den };
        self.energy = e;
        e
    }

    /// A fresh seed for the driver-mode schedule, with its energy computed
    /// from the supplied counters.
    pub fn new(
        name: &str,
        coverage: u32,
        exec_count: u32,
        prompt_count: u32,
        exponent: u32,
    ) -> (r: Seed)
        requires
            coverage <= COVERAGE_SCALE,
        ensures
            r.name@ == name@,
            r.coverage == coverage,
            r.exec_count == exec_count,
            r.prompt_count == prompt_count,
            r.energy == Seed::scheduled_energy(
                coverage as nat,
                exec_count as nat,
                prompt_count as nat,
                exponent as nat,
            ),
            r.wf(),
    {
        let mut seed = Seed {
            name: name.to_owned(),
            coverage,
            exec_count,
            prompt_count,
            energy: Energy { num: 0, den: 1 },
        };
        seed.compute_energy(exponent);
        seed
    }

    /// A fresh seed for the API-combination schedule: counters unused, base
    /// energy one so every API has a chance to be selected.
    pub fn new_for_api_mode(name: &str) -> (r: Seed)
        ensures
            r.name@ == name@,
            r.coverage == 0,
            r.exec_count == 0,
            r.prompt_count == 0,
            r.energy == (Energy { num: 1, den: 1 }),
            r.wf(),
    {
        Seed {
            name: name.to_owned(),
            coverage: 0,
            exec_count: 0,
            prompt_count: 0,
            energy: Energy { num: 1, den: 1 },
        }
    }

    /// Additive reinforcement: raise this seed's energy by one, clamping on
    /// overflow. On a well-formed seed the rational value grows by exactly
    /// one while the numerator stays in range.
    pub fn reinforce(&mut self)
        ensures
            final(self).energy.num == sat64(
                old(self).energy.num as int + old(self).energy.den as int,
            ),
            final(self).energy.den == old(self).energy.den,
            final(self).name == old(self).name,
            final(self).coverage == old(self).coverage,
            final(self).exec_count == old(self).exec_count,
            final(self).prompt_count == old(self).prompt_count,
    {
        self.energy.num = sat_add_u64(self.energy.num, self.energy.den);
    }
}

} // verus!
