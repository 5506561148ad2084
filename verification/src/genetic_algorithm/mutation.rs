//! Mutation: how a child genome is perturbed.

use crate::fixed::{clamped, difference, product, sum, SCALE};
use crate::genetic_algorithm::chromosome::Chromosome;
use crate::random::{draw_ratio, draw_unit};
use rand_chacha::ChaCha8Rng;
use vstd::prelude::*;

verus! {

/// A way to perturb a genome in place.
pub trait MutationMethod {
    /// The genomes that the method may turn `before` into.
    spec fn may_turn(&self, before: Seq<i64>, after: Seq<i64>) -> bool;

    /// Perturbs the genome.
    fn mutate(&self, rng: &mut ChaCha8Rng, child: &mut Chromosome)
        ensures
            self.may_turn(old(child)@, final(child)@),
    ;
}

/// Mutation that, for each gene and with a given chance, adds a perturbation
/// drawn uniformly between minus a coefficient and the coefficient. (It bears
/// the name of the bell curve by tradition only.)
#[derive(Clone, Copy, Debug)]
pub struct GaussianMutation {
    /// Probability of changing a gene: zero is never, one is always.
    chance: i64,
    /// Largest magnitude of a change.
    coeff: i64,
}

/// The gene moved by the share `unit` of the coefficient, down or up,
/// saturating.
pub open spec fn perturbed(gene: i64, coeff: i64, down: bool, unit: i64) -> i64 {
    let size = clamped(coeff * unit / SCALE as int);
    if down {
        clamped(gene - size)
    } else {
        clamped(gene + size)
    }
}

/// What the mutation may make of one gene: either the gene itself, which a
/// chance of one rules out, or the gene moved by some share of the
/// coefficient, which a chance of zero rules out.
pub open spec fn may_become(chance: i64, coeff: i64, before: i64, after: i64) -> bool {
    ||| chance < SCALE && after == before
    ||| chance > 0 && exists|down: bool, unit: i64|
        0 <= unit < SCALE && after == #[trigger] perturbed(before, coeff, down, unit)
}

/// Every gene of `after` is what the mutation may make of the gene of
/// `before` at its place.
pub open spec fn perturbs(chance: i64, coeff: i64, before: Seq<i64>, after: Seq<i64>) -> bool {
    &&& after.len() == before.len()
    &&& forall|k: int|
        0 <= k < after.len() ==> may_become(chance, coeff, before[k], #[trigger] after[k])
}

/// The gene moved by the share `unit`, at least zero and less than one, of
/// the coefficient: down if `down`, else up.
pub fn perturb(gene: i64, coeff: i64, down: bool, unit: i64) -> (moved: i64)
    ensures
        moved == perturbed(gene, coeff, down, unit),
{
    let size: i64 = product(coeff, unit);
    if down {
        difference(gene, size)
    } else {
        sum(gene, size)
    }
}

impl GaussianMutation {
    #[verifier::type_invariant]
    spec fn valid(self) -> bool {
        0 <= self.chance <= SCALE && 0 <= self.coeff
    }

    /// The probability of changing a gene.
    pub closed spec fn spec_chance(self) -> i64 {
        self.chance
    }

    /// The largest magnitude of a change.
    pub closed spec fn spec_coeff(self) -> i64 {
        self.coeff
    }

    /// The mutation with the given chance, between zero and one, and the
    /// given coefficient, which is not negative.
    pub fn new(chance: i64, coeff: i64) -> (method: GaussianMutation)
        requires
            0 <= chance <= SCALE,
            0 <= coeff,
        ensures
            method.spec_chance() == chance,
            method.spec_coeff() == coeff,
    {
        GaussianMutation { chance, coeff }
    }

    /// The probability of changing a gene.
    #[verifier::when_used_as_spec(spec_chance)]
    pub fn chance(self) -> (chance: i64)
        ensures
            chance == self.spec_chance(),
            0 <= chance <= SCALE,
    {
        proof {
            use_type_invariant(&self);
        }
        self.chance
    }

    /// The largest magnitude of a change.
    #[verifier::when_used_as_spec(spec_coeff)]
    pub fn coeff(self) -> (coeff: i64)
        ensures
            coeff == self.spec_coeff(),
            0 <= coeff,
    {
        proof {
            use_type_invariant(&self);
        }
        self.coeff
    }
}

impl MutationMethod for GaussianMutation {
    open spec fn may_turn(&self, before: Seq<i64>, after: Seq<i64>) -> bool {
        perturbs(self.spec_chance(), self.spec_coeff(), before, after)
    }

    /// For each gene in order: one draw gives the sign of the change, a
    /// second decides whether the gene changes at all, and if it does a third
    /// gives the share of the coefficient by which it changes.
    fn mutate(&self, rng: &mut ChaCha8Rng, child: &mut Chromosome) {
        proof {
            use_type_invariant(self);
        }
        let count: usize = child.len();
        let mut k: usize = 0;
        while k < count
            invariant
                k <= count,
                count == child@.len(),
                child@.len() == old(child)@.len(),
                0 <= self.chance <= SCALE,
                forall|n: int|
                    0 <= n < k ==> may_become(
                        self.chance,
                        self.coeff,
                        old(child)@[n],
                        #[trigger] child@[n],
                    ),
                forall|n: int| k <= n < count ==> #[trigger] child@[n] == old(child)@[n],
            decreases count - k,
        {
            let gene: i64 = child.gene(k);
            let down = draw_ratio(rng, 1, 2);
            if draw_ratio(rng, self.chance as u32, SCALE as u32) {
                let unit: i64 = draw_unit(rng);
                child.set_gene(k, perturb(gene, self.coeff, down, unit));
                proof {
                    assert(child@[k as int] == perturbed(gene, self.coeff, down, unit));
                }
            }
            k += 1;
        }
    }
}

/// A mutation whose chance is zero changes nothing.
pub proof fn lemma_no_chance_no_change(method: GaussianMutation, before: Seq<i64>, after: Seq<i64>)
    requires
        method.spec_chance() == 0,
        method.may_turn(before, after),
    ensures
        after == before,
{
    assert(after =~= before);
}

/// A mutation whose coefficient is zero changes nothing, whatever its
/// chance.
pub proof fn lemma_no_coeff_no_change(method: GaussianMutation, before: Seq<i64>, after: Seq<i64>)
    requires
        method.spec_coeff() == 0,
        method.may_turn(before, after),
    ensures
        after == before,
{
    assert forall|k: int| 0 <= k < after.len() implies after[k] == before[k] by {
        assert(may_become(method.spec_chance(), 0, before[k], after[k]));
        assert forall|down: bool, unit: i64| perturbed(before[k], 0, down, unit) == before[k] by {
            assert(0 * unit / SCALE as int == 0) by (nonlinear_arith)
                requires
                    SCALE == 1_000_000,
            ;
        }
    }
    assert(after =~= before);
}

/// A mutation whose chance is one moves every gene by some share of its
/// coefficient.
pub proof fn lemma_certain_chance(
    method: GaussianMutation,
    before: Seq<i64>,
    after: Seq<i64>,
    k: int,
)
    requires
        method.spec_chance() == SCALE,
        method.may_turn(before, after),
        0 <= k < before.len(),
    ensures
        exists|down: bool, unit: i64|
            0 <= unit < SCALE && after[k] == #[trigger] perturbed(
                before[k],
                method.spec_coeff(),
                down,
                unit,
            ),
{
    assert(may_become(SCALE, method.spec_coeff(), before[k], after[k]));
}

/// A mutation moves no gene by more than its coefficient.
pub proof fn lemma_change_is_bounded(
    method: GaussianMutation,
    before: Seq<i64>,
    after: Seq<i64>,
    k: int,
)
    requires
        0 <= method.spec_coeff(),
        method.may_turn(before, after),
        0 <= k < before.len(),
    ensures
        -method.spec_coeff() <= after[k] - before[k] <= method.spec_coeff(),
{
    let coeff = method.spec_coeff();
    assert(may_become(method.spec_chance(), coeff, before[k], after[k]));
    assert forall|down: bool, unit: i64| 0 <= unit < SCALE implies -coeff <= #[trigger] perturbed(
        before[k],
        coeff,
        down,
        unit,
    ) - before[k] <= coeff by {
        assert(0 <= coeff * unit / SCALE as int <= coeff) by (nonlinear_arith)
            requires
                0 <= coeff,
                0 <= unit < SCALE,
                SCALE == 1_000_000,
        ;
    }
}

} // verus!
