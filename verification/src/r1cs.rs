//! The rank-1 constraint system: indexed variables, constraints made of
//! three linear combinations tagged with an operation, and the satisfaction
//! check that folds each combination to a scalar and tests the operation's
//! algebraic relation.

use vstd::prelude::*;
use num_bigint::BigInt;
use crate::hash_functions::HashFunction;
use crate::value::big_eq;
use crate::value::big_default;
use crate::value::big_plus;
use crate::value::big_times;
use crate::value::int_of;

verus! {

/// A variable: a slot identity `index` together with its current value.
/// The index is a stable key, not necessarily the variable's position in
/// the owning vector once hash-gate outputs are appended dynamically.
pub struct Variable {
    pub index: usize,
    pub value: BigInt,
}

/// Which algebraic relation a constraint asserts between its three linear
/// combinations: sum, product, or the pluggable combining function.
pub enum Operation {
    Add,
    Mul,
    Hash,
}

/// One constraint: three ordered linear combinations, each a list of
/// (variable, coefficient) pairs, and the operation relating their scalars.
pub struct Constraint {
    pub left: Vec<(Variable, BigInt)>,
    pub right: Vec<(Variable, BigInt)>,
    pub output: Vec<(Variable, BigInt)>,
    pub operation: Operation,
}

/// The constraint system: variables and constraints, in insertion order.
pub struct R1CS {
    pub variables: Vec<Variable>,
    pub constraints: Vec<Constraint>,
}

/// A variable slot, as mathematics: its index and the integer it holds.
pub struct SlotModel {
    pub index: int,
    pub value: int,
}

/// One linear-combination term, as mathematics: the referenced slot's
/// index, the value it held when the term was recorded, and the coefficient.
pub struct TermModel {
    pub index: int,
    pub value: int,
    pub coeff: int,
}

/// A constraint, as mathematics.
#[verifier::ext_equal]
pub struct ConstraintModel {
    pub left: Seq<TermModel>,
    pub right: Seq<TermModel>,
    pub output: Seq<TermModel>,
    pub operation: Operation,
}

/// The whole engine state, as mathematics.
#[verifier::ext_equal]
pub struct EngineModel {
    pub variables: Seq<SlotModel>,
    pub constraints: Seq<ConstraintModel>,
}

pub open spec fn slot_model(v: Variable) -> SlotModel {
    SlotModel { index: v.index as int, value: int_of(v.value) }
}

pub open spec fn slots_model(vs: Seq<Variable>) -> Seq<SlotModel> {
    vs.map_values(|v: Variable| slot_model(v))
}

pub open spec fn term_model(t: (Variable, BigInt)) -> TermModel {
    TermModel { index: t.0.index as int, value: int_of(t.0.value), coeff: int_of(t.1) }
}

pub open spec fn lc_model(lc: Seq<(Variable, BigInt)>) -> Seq<TermModel> {
    lc.map_values(|t: (Variable, BigInt)| term_model(t))
}

pub open spec fn constraint_model(c: Constraint) -> ConstraintModel {
    ConstraintModel {
        left: lc_model(c.left@),
        right: lc_model(c.right@),
        output: lc_model(c.output@),
        operation: c.operation,
    }
}

pub open spec fn engine_model(e: R1CS) -> EngineModel {
    EngineModel {
        variables: slots_model(e.variables@),
        constraints: e.constraints@.map_values(|c: Constraint| constraint_model(c)),
    }
}

/// The scalar a linear combination folds to: the sum of value * coefficient
/// over its terms. Order does not affect the result, but the definition
/// walks the recorded order.
pub open spec fn lc_sum(terms: Seq<TermModel>) -> int
    decreases terms.len(),
{
    if terms.len() == 0 {
        0
    } else {
        lc_sum(terms.drop_last()) + terms.last().value * terms.last().coeff
    }
}

/// Whether one constraint's algebraic relation holds under `h`.
pub open spec fn constraint_holds<H: HashFunction>(c: ConstraintModel, h: &H) -> bool {
    match c.operation {
        Operation::Add => lc_sum(c.left) + lc_sum(c.right) == lc_sum(c.output),
        Operation::Mul => lc_sum(c.left) * lc_sum(c.right) == lc_sum(c.output),
        Operation::Hash => h.hash_spec(lc_sum(c.left), lc_sum(c.right)) == lc_sum(c.output),
    }
}

/// Whether every constraint of a sequence holds under `h`.
pub open spec fn constraints_satisfied<H: HashFunction>(cs: Seq<ConstraintModel>, h: &H) -> bool {
    forall|i: int| 0 <= i < cs.len() ==> constraint_holds(#[trigger] cs[i], h)
}

/// The scalar value of a linear combination.
fn lc_value(lc: &Vec<(Variable, BigInt)>) -> (r: BigInt)
    ensures
        int_of(r) == lc_sum(lc_model(lc@)),
{
    let mut acc = big_default();
    let n = lc.len();
    for i in 0..n
        invariant
            n == lc@.len(),
            int_of(acc) == lc_sum(lc_model(lc@).take(i as int)),
    {
        let term = big_times(&lc[i].0.value, &lc[i].1);
        acc = big_plus(&acc, &term);
        proof {
            let m = lc_model(lc@);
            assert(m.take(i + 1).drop_last() =~= m.take(i as int));
            assert(m.take(i + 1).last() == term_model(lc@[i as int]));
        }
    }
    proof {
        assert(lc_model(lc@).take(n as int) =~= lc_model(lc@));
    }
    acc
}

impl R1CS {
    /// A fresh engine with no variables and no constraints.
    pub fn new() -> (r: R1CS)
        ensures
            r.variables@.len() == 0,
            r.constraints@.len() == 0,
    {
        R1CS { variables: Vec::new(), constraints: Vec::new() }
    }

    /// Append one constraint; everything already recorded is kept.
    pub fn add_constraint(
        &mut self,
        left: Vec<(Variable, BigInt)>,
        right: Vec<(Variable, BigInt)>,
        output: Vec<(Variable, BigInt)>,
        operation: Operation,
    )
        ensures
            final(self).variables@ == old(self).variables@,
            final(self).constraints@ == old(self).constraints@.push(
                (Constraint { left, right, output, operation }),
            ),
    {
        let constraint = Constraint { left, right, output, operation };
        self.constraints.push(constraint);
    }

    /// Scan the constraints in insertion order and report whether every one
    /// holds; the scan stops at the first violation and never mutates the
    /// engine. The result is exactly `constraints_satisfied` of the engine's
    /// mathematical content under `hash_function`.
    pub fn is_satisfied<H: HashFunction>(&self, hash_function: &H) -> (r: bool)
        ensures
            r == constraints_satisfied(engine_model(*self).constraints, hash_function),
    {
        let n = self.constraints.len();
        for j in 0..n
            invariant
                n == self.constraints@.len(),
                forall|k: int| 0 <= k < j ==> constraint_holds(
                    #[trigger] engine_model(*self).constraints[k],
                    hash_function,
                ),
        {
            let c = &self.constraints[j];
            let lv = lc_value(&c.left);
            let rv = lc_value(&c.right);
            let ov = lc_value(&c.output);
            let ok = match c.operation {
                Operation::Add => {
                    let s = big_plus(&lv, &rv);
                    big_eq(&s, &ov)
                },
                Operation::Mul => {
                    let p = big_times(&lv, &rv);
                    big_eq(&p, &ov)
                },
                Operation::Hash => {
                    let hv = hash_function.hash(&lv, &rv);
                    big_eq(&hv, &ov)
                },
            };
            if !ok {
                proof {
                    assert(engine_model(*self).constraints[j as int]
                        == constraint_model(self.constraints@[j as int]));
                    assert(!constraint_holds(
                        engine_model(*self).constraints[j as int],
                        hash_function,
                    ));
                }
                return false;
            }
        }
        true
    }
}

/// Law: the satisfaction verdict depends only on the recorded constraints
/// and on what the combining function computes, so checking the same
/// unmodified engine again, with a combining function that computes the
/// same values, yields the same boolean.
pub proof fn lemma_satisfaction_deterministic<H1: HashFunction, H2: HashFunction>(
    cs: Seq<ConstraintModel>,
    h1: &H1,
    h2: &H2,
)
    requires
        forall|a: int, b: int| #[trigger] h1.hash_spec(a, b) == h2.hash_spec(a, b),
    ensures
        constraints_satisfied(cs, h1) == constraints_satisfied(cs, h2),
{
    assert forall|i: int| 0 <= i < cs.len() implies constraint_holds(#[trigger] cs[i], h1)
        == constraint_holds(cs[i], h2) by {
        assert(h1.hash_spec(lc_sum(cs[i].left), lc_sum(cs[i].right))
            == h2.hash_spec(lc_sum(cs[i].left), lc_sum(cs[i].right)));
    }
}

} // verus!
