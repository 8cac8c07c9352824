//! The circuit compiler: ordered input values, gates over variable indices,
//! and the compilation of gates into R1CS constraints. Hash gates have
//! their output computed eagerly through the combining function; Add and
//! Mul gates deliberately leave their output variable at the default value
//! and rely on the satisfaction check to assert the relation.

use vstd::prelude::*;
use num_bigint::BigInt;
use crate::hash_functions::HashFunction;
use crate::r1cs::ConstraintModel;
use crate::r1cs::EngineModel;
use crate::r1cs::Operation;
use crate::r1cs::R1CS;
use crate::r1cs::SlotModel;
use crate::r1cs::TermModel;
use crate::r1cs::Variable;
use crate::r1cs::constraint_model;
use crate::r1cs::constraint_holds;
use crate::r1cs::constraints_satisfied;
use crate::r1cs::engine_model;
use crate::r1cs::lc_model;
use crate::r1cs::lc_sum;
use crate::r1cs::slot_model;
use crate::r1cs::slots_model;
use crate::value::big_clone;
use crate::value::big_default;
use crate::value::big_from_u64;
use crate::value::int_of;
use crate::value::ints_of;

verus! {

/// One circuit step: two operand indices and an output index into the
/// circuit's logical variable space.
#[derive(Clone, Copy)]
pub enum Gate {
    Add(usize, usize, usize),
    Mul(usize, usize, usize),
    Hash(usize, usize, usize),
}

/// A gate referenced a variable slot that was never populated; the payload
/// is the offending index.
#[derive(Debug)]
pub enum CircuitError {
    InvalidVariableReference(usize),
}

/// A circuit: an optional combining function (addition when absent),
/// ordered inputs, ordered gates, and declared outputs (informational
/// only; compilation does not consume them).
pub struct Circuit<H: HashFunction> {
    pub hash_function: Option<H>,
    pub inputs: Vec<BigInt>,
    pub gates: Vec<Gate>,
    pub outputs: Vec<BigInt>,
}

/// The position of the first variable slot carrying `idx`, if any.
pub open spec fn find_slot(vars: Seq<SlotModel>, idx: int) -> Option<int>
    decreases vars.len(),
{
    if vars.len() == 0 {
        None
    } else if vars[0].index == idx {
        Some(0int)
    } else {
        match find_slot(vars.drop_first(), idx) {
            Some(p) => Some(p + 1),
            None => None,
        }
    }
}

/// What `find_slot` finds is the first slot carrying the index, and it
/// finds one whenever there is one.
pub proof fn lemma_find_slot_characterization(vars: Seq<SlotModel>, idx: int)
    ensures
        match find_slot(vars, idx) {
            Some(p) => 0 <= p < vars.len() && vars[p].index == idx && (forall|k: int|
                0 <= k < p ==> (#[trigger] vars[k]).index != idx),
            None => forall|k: int| 0 <= k < vars.len() ==> (#[trigger] vars[k]).index != idx,
        },
    decreases vars.len(),
{
    if vars.len() == 0 {
    } else if vars[0].index == idx {
    } else {
        let rest = vars.drop_first();
        lemma_find_slot_characterization(rest, idx);
        match find_slot(rest, idx) {
            Some(p) => {
                assert(rest[p] == vars[p + 1]);
                assert forall|k: int| 0 <= k < p + 1 implies (#[trigger] vars[k]).index != idx by {
                    if k > 0 {
                        assert(rest[k - 1] == vars[k]);
                        assert(rest[k - 1].index != idx);
                    }
                }
            },
            None => {
                assert forall|k: int| 0 <= k < vars.len() implies (#[trigger] vars[k]).index
                    != idx by {
                    if k > 0 {
                        assert(rest[k - 1] == vars[k]);
                        assert(rest[k - 1].index != idx);
                    }
                }
            },
        }
    }
}

/// A term with coefficient one referencing a slot as it currently stands.
pub open spec fn unit_term(s: SlotModel) -> TermModel {
    TermModel { index: s.index, value: s.value, coeff: 1 }
}

/// Compiling an Add or Mul gate: reference the slots carrying the operand
/// indices, and an output variable at the default value zero — the true
/// sum or product is never computed here; the checker is left to reject
/// any assignment where the output slot was not separately set.
pub open spec fn linear_gate_step(
    st: EngineModel,
    a: usize,
    b: usize,
    out: usize,
    op: Operation,
) -> Result<EngineModel, usize> {
    match find_slot(st.variables, a as int) {
        None => Err(a),
        Some(pa) => match find_slot(st.variables, b as int) {
            None => Err(b),
            Some(pb) => Ok(
                (EngineModel {
                    variables: st.variables,
                    constraints: st.constraints.push(
                        (ConstraintModel {
                            left: seq![unit_term(st.variables[pa])],
                            right: seq![unit_term(st.variables[pb])],
                            output: seq![TermModel { index: out as int, value: 0, coeff: 1 }],
                            operation: op,
                        }),
                    ),
                }),
            ),
        },
    }
}

/// Compiling a Hash gate: combine the circuit inputs at `a` and `b`
/// eagerly, write the result into the slot carrying `out` (appending the
/// slot when absent), and then reference the slots carrying `a`, `b` and
/// `out` as they stand after that write.
pub open spec fn hash_gate_step<H: HashFunction>(
    st: EngineModel,
    a: usize,
    b: usize,
    out: usize,
    inputs: Seq<int>,
    h: &H,
) -> Result<EngineModel, usize> {
    if a >= inputs.len() {
        Err(a)
    } else if b >= inputs.len() {
        Err(b)
    } else {
        let hv = h.hash_spec(inputs[a as int], inputs[b as int]);
        let written = match find_slot(st.variables, out as int) {
            Some(p) => st.variables.update(p, SlotModel { index: out as int, value: hv }),
            None => st.variables.push(SlotModel { index: out as int, value: hv }),
        };
        match find_slot(written, a as int) {
            None => Err(a),
            Some(pa) => match find_slot(written, b as int) {
                None => Err(b),
                Some(pb) => Ok(
                    (EngineModel {
                        variables: written,
                        constraints: st.constraints.push(
                            (ConstraintModel {
                                left: seq![unit_term(written[pa])],
                                right: seq![unit_term(written[pb])],
                                output: seq![TermModel { index: out as int, value: hv, coeff: 1 }],
                                operation: Operation::Hash,
                            }),
                        ),
                    }),
                ),
            },
        }
    }
}

/// One gate applied to an engine state.
pub open spec fn gate_step<H: HashFunction>(
    st: EngineModel,
    g: Gate,
    inputs: Seq<int>,
    h: &H,
) -> Result<EngineModel, usize> {
    match g {
        Gate::Add(a, b, out) => linear_gate_step(st, a, b, out, Operation::Add),
        Gate::Mul(a, b, out) => linear_gate_step(st, a, b, out, Operation::Mul),
        Gate::Hash(a, b, out) => hash_gate_step(st, a, b, out, inputs, h),
    }
}

/// All gates applied in declaration order; the first bad reference stops
/// compilation with its index.
pub open spec fn run_gates<H: HashFunction>(
    st: EngineModel,
    gates: Seq<Gate>,
    inputs: Seq<int>,
    h: &H,
) -> Result<EngineModel, usize>
    decreases gates.len(),
{
    if gates.len() == 0 {
        Ok(st)
    } else {
        match gate_step(st, gates[0], inputs, h) {
            Ok(st2) => run_gates(st2, gates.drop_first(), inputs, h),
            Err(e) => Err(e),
        }
    }
}

/// The engine's starting variables: one slot per circuit input, the input
/// index as the slot index.
pub open spec fn init_slots(inputs: Seq<int>) -> Seq<SlotModel> {
    Seq::new(inputs.len(), |i: int| SlotModel { index: i, value: inputs[i] })
}

impl<H: HashFunction> Circuit<H> {
    /// What compiling this circuit produces: the engine populated with one
    /// variable per input and then every gate applied in order.
    pub open spec fn compile_model(&self) -> Result<EngineModel, usize> {
        run_gates(
            EngineModel { variables: init_slots(ints_of(self.inputs@)), constraints: Seq::empty() },
            self.gates@,
            ints_of(self.inputs@),
            &self.hash_function,
        )
    }

    /// Whether the compiled system is satisfied under the circuit's own
    /// combining function; meaningful when compilation succeeds.
    pub open spec fn satisfied_model(&self) -> bool {
        match self.compile_model() {
            Ok(m) => constraints_satisfied(m.constraints, &self.hash_function),
            Err(_) => false,
        }
    }

    /// An empty circuit with the given combining function, or none for the
    /// addition fallback.
    pub fn new(hash_function: Option<H>) -> (r: Circuit<H>)
        ensures
            r.hash_function == hash_function,
            r.inputs@.len() == 0,
            r.gates@.len() == 0,
            r.outputs@.len() == 0,
    {
        Circuit { hash_function, inputs: Vec::new(), gates: Vec::new(), outputs: Vec::new() }
    }

    /// Append an input value and return its index.
    pub fn add_input(&mut self, value: BigInt) -> (index: usize)
        ensures
            index == old(self).inputs@.len(),
            final(self).inputs@ == old(self).inputs@.push(value),
            final(self).gates@ == old(self).gates@,
            final(self).outputs@ == old(self).outputs@,
            final(self).hash_function == old(self).hash_function,
    {
        let index = self.inputs.len();
        self.inputs.push(value);
        index
    }

    /// Append a gate.
    pub fn add_gate(&mut self, gate: Gate)
        ensures
            final(self).gates@ == old(self).gates@.push(gate),
            final(self).inputs@ == old(self).inputs@,
            final(self).outputs@ == old(self).outputs@,
            final(self).hash_function == old(self).hash_function,
    {
        self.gates.push(gate);
    }

    /// Append a declared output value; compilation never reads these.
    pub fn add_output(&mut self, value: BigInt)
        ensures
            final(self).outputs@ == old(self).outputs@.push(value),
            final(self).inputs@ == old(self).inputs@,
            final(self).gates@ == old(self).gates@,
            final(self).hash_function == old(self).hash_function,
    {
        self.outputs.push(value);
    }

    /// The input at `index`, when there is one.
    pub fn get_input(&self, index: usize) -> (r: Option<&BigInt>)
        ensures
            match r {
                Some(v) => index < self.inputs@.len() && *v == self.inputs@[index as int],
                None => index >= self.inputs@.len(),
            },
    {
        if index < self.inputs.len() {
            Some(&self.inputs[index])
        } else {
            None
        }
    }

    /// Combine two values with the circuit's hash function; integer
    /// addition when none was supplied.
    fn apply_hash(&self, a: &BigInt, b: &BigInt) -> (r: BigInt)
        ensures
            int_of(r) == self.hash_function.hash_spec(int_of(*a), int_of(*b)),
    {
        self.hash_function.hash(a, b)
    }

    /// Compile the circuit into a fresh constraint system: one variable per
    /// input, then one constraint per gate, in order. A gate index that
    /// references a slot never populated fails with that index rather than
    /// silently defaulting.
    pub fn compile(&self) -> (r: Result<R1CS, CircuitError>)
        ensures
            match r {
                Ok(engine) => self.compile_model() == Ok::<EngineModel, usize>(
                    engine_model(engine),
                ),
                Err(e) => match e {
                    CircuitError::InvalidVariableReference(i) => self.compile_model()
                        == Err::<EngineModel, usize>(i),
                },
            },
    {
        let ghost input_ints = ints_of(self.inputs@);
        let mut engine = R1CS::new();
        let n = self.inputs.len();
        for i in 0..n
            invariant
                n == self.inputs@.len(),
                engine.constraints@.len() == 0,
                engine.variables@.len() == i,
                forall|k: int| 0 <= k < i ==> slots_model(engine.variables@)[k]
                    == init_slots(ints_of(self.inputs@))[k],
        {
            let var = Variable { index: i, value: big_clone(&self.inputs[i]) };
            let ghost varg = var;
            let ghost vs0 = engine.variables@;
            engine.variables.push(var);
            proof {
                assert(engine.variables@ == vs0.push(varg));
                assert forall|k: int| 0 <= k < i + 1 implies slots_model(engine.variables@)[k]
                    == init_slots(ints_of(self.inputs@))[k] by {
                    assert(slots_model(engine.variables@)[k]
                        == slot_model(engine.variables@[k]));
                    if k < i as int {
                        assert(engine.variables@[k] == vs0[k]);
                        assert(slots_model(vs0)[k] == slot_model(vs0[k]));
                    } else {
                        assert(engine.variables@[k] == varg);
                        assert(ints_of(self.inputs@)[k] == int_of(self.inputs@[k]));
                    }
                }
            }
        }
        proof {
            assert(slots_model(engine.variables@) =~= init_slots(input_ints));
            assert(engine_model(engine).constraints =~= Seq::<ConstraintModel>::empty());
            assert(engine_model(engine) =~= EngineModel {
                variables: init_slots(input_ints),
                constraints: Seq::empty(),
            });
            assert(self.gates@.skip(0) =~= self.gates@);
        }
        let m = self.gates.len();
        for j in 0..m
            invariant
                m == self.gates@.len(),
                run_gates(engine_model(engine), self.gates@.skip(j as int), input_ints,
                    &self.hash_function) == self.compile_model(),
                input_ints == ints_of(self.inputs@),
        {
            let ghost st0 = engine_model(engine);
            proof {
                assert(self.gates@.skip(j as int)[0] == self.gates@[j as int]);
                assert(self.gates@.skip(j as int).drop_first() =~= self.gates@.skip(j + 1));
            }
            match self.gates[j] {
                Gate::Add(a, b, out) => {
                    match self.linear_gate(&mut engine, a, b, out, false) {
                        Ok(()) => {},
                        Err(e) => {
                            return Err(e);
                        },
                    }
                },
                Gate::Mul(a, b, out) => {
                    match self.linear_gate(&mut engine, a, b, out, true) {
                        Ok(()) => {},
                        Err(e) => {
                            return Err(e);
                        },
                    }
                },
                Gate::Hash(a, b, out) => {
                    match self.hash_gate(&mut engine, a, b, out) {
                        Ok(()) => {},
                        Err(e) => {
                            return Err(e);
                        },
                    }
                },
            }
        }
        proof {
            assert(self.gates@.skip(m as int) =~= Seq::<Gate>::empty());
        }
        Ok(engine)
    }

    /// Compile one Add or Mul gate into `engine`.
    fn linear_gate(&self, engine: &mut R1CS, a: usize, b: usize, out: usize, is_mul: bool)
        -> (r: Result<(), CircuitError>)
        ensures
            match r {
                Ok(()) => linear_gate_step(
                    engine_model(*old(engine)),
                    a,
                    b,
                    out,
                    if is_mul { Operation::Mul } else { Operation::Add },
                ) == Ok::<EngineModel, usize>(engine_model(*final(engine))),
                Err(e) => *final(engine) == *old(engine) && match e {
                    CircuitError::InvalidVariableReference(i) => linear_gate_step(
                        engine_model(*old(engine)),
                        a,
                        b,
                        out,
                        if is_mul { Operation::Mul } else { Operation::Add },
                    ) == Err::<EngineModel, usize>(i),
                },
            },
    {
        let pa = match find_variable(engine, a) {
            Some(p) => p,
            None => {
                return Err(CircuitError::InvalidVariableReference(a));
            },
        };
        let pb = match find_variable(engine, b) {
            Some(p) => p,
            None => {
                return Err(CircuitError::InvalidVariableReference(b));
            },
        };
        let ghost st0 = engine_model(*engine);
        let mut left: Vec<(Variable, BigInt)> = Vec::new();
        left.push((clone_variable(&engine.variables[pa]), big_from_u64(1)));
        let mut right: Vec<(Variable, BigInt)> = Vec::new();
        right.push((clone_variable(&engine.variables[pb]), big_from_u64(1)));
        let mut output: Vec<(Variable, BigInt)> = Vec::new();
        output.push((Variable { index: out, value: big_default() }, big_from_u64(1)));
        let op = if is_mul { Operation::Mul } else { Operation::Add };
        let ghost expected = ConstraintModel {
            left: seq![unit_term(st0.variables[pa as int])],
            right: seq![unit_term(st0.variables[pb as int])],
            output: seq![TermModel { index: out as int, value: 0, coeff: 1 }],
            operation: op,
        };
        engine.add_constraint(left, right, output, op);
        proof {
            let c = engine.constraints@.last();
            assert(lc_model(c.left@) =~= expected.left);
            assert(lc_model(c.right@) =~= expected.right);
            assert(lc_model(c.output@) =~= expected.output);
            assert(constraint_model(c) =~= expected);
            assert(engine_model(*engine).constraints
                =~= st0.constraints.push(expected));
            assert(engine_model(*engine).variables =~= st0.variables);
            assert(linear_gate_step(st0, a, b, out, op)
                == Ok::<EngineModel, usize>(engine_model(*engine)));
        }
        Ok(())
    }

    /// Compile one Hash gate into `engine`: combine the inputs eagerly and
    /// write the result into the output slot before recording the
    /// constraint.
    fn hash_gate(&self, engine: &mut R1CS, a: usize, b: usize, out: usize)
        -> (r: Result<(), CircuitError>)
        ensures
            match r {
                Ok(()) => hash_gate_step(
                    engine_model(*old(engine)),
                    a,
                    b,
                    out,
                    ints_of(self.inputs@),
                    &self.hash_function,
                ) == Ok::<EngineModel, usize>(engine_model(*final(engine))),
                Err(e) => match e {
                    CircuitError::InvalidVariableReference(i) => hash_gate_step(
                        engine_model(*old(engine)),
                        a,
                        b,
                        out,
                        ints_of(self.inputs@),
                        &self.hash_function,
                    ) == Err::<EngineModel, usize>(i),
                },
            },
    {
        if a >= self.inputs.len() {
            return Err(CircuitError::InvalidVariableReference(a));
        }
        if b >= self.inputs.len() {
            return Err(CircuitError::InvalidVariableReference(b));
        }
        let ghost st0 = engine_model(*engine);
        let hv = self.apply_hash(&self.inputs[a], &self.inputs[b]);
        let ghost hvi = int_of(hv);
        match find_variable(engine, out) {
            Some(p) => {
                let written = Variable { index: out, value: big_clone(&hv) };
                engine.variables.set(p, written);
                proof {
                    assert(slots_model(engine.variables@) =~= st0.variables.update(
                        p as int,
                        SlotModel { index: out as int, value: hvi },
                    ));
                }
            },
            None => {
                engine.variables.push(Variable { index: out, value: big_clone(&hv) });
                proof {
                    assert(slots_model(engine.variables@) =~= st0.variables.push(
                        SlotModel { index: out as int, value: hvi },
                    ));
                }
            },
        }
        let ghost written = slots_model(engine.variables@);
        let pa = match find_variable(engine, a) {
            Some(p) => p,
            None => {
                return Err(CircuitError::InvalidVariableReference(a));
            },
        };
        let pb = match find_variable(engine, b) {
            Some(p) => p,
            None => {
                return Err(CircuitError::InvalidVariableReference(b));
            },
        };
        let mut left: Vec<(Variable, BigInt)> = Vec::new();
        left.push((clone_variable(&engine.variables[pa]), big_from_u64(1)));
        let mut right: Vec<(Variable, BigInt)> = Vec::new();
        right.push((clone_variable(&engine.variables[pb]), big_from_u64(1)));
        let mut output: Vec<(Variable, BigInt)> = Vec::new();
        output.push((Variable { index: out, value: big_clone(&hv) }, big_from_u64(1)));
        let ghost expected = ConstraintModel {
            left: seq![unit_term(written[pa as int])],
            right: seq![unit_term(written[pb as int])],
            output: seq![TermModel { index: out as int, value: hvi, coeff: 1 }],
            operation: Operation::Hash,
        };
        engine.add_constraint(left, right, output, Operation::Hash);
        proof {
            let c = engine.constraints@.last();
            assert(lc_model(c.left@) =~= expected.left);
            assert(lc_model(c.right@) =~= expected.right);
            assert(lc_model(c.output@) =~= expected.output);
            assert(constraint_model(c) =~= expected);
            assert(engine_model(*engine).constraints =~= st0.constraints.push(expected));
            assert(engine_model(*engine).variables =~= written);
            assert(hash_gate_step(st0, a, b, out, ints_of(self.inputs@), &self.hash_function)
                == Ok::<EngineModel, usize>(engine_model(*engine)));
        }
        Ok(())
    }

    /// Compile the circuit and check satisfaction with the circuit's own
    /// combining function: the boolean is exactly whether every compiled
    /// constraint's relation holds.
    pub fn compile_and_check(&self) -> (r: Result<bool, CircuitError>)
        ensures
            match r {
                Ok(b) => self.compile_model() is Ok && b == self.satisfied_model(),
                Err(e) => match e {
                    CircuitError::InvalidVariableReference(i) => self.compile_model()
                        == Err::<EngineModel, usize>(i),
                },
            },
    {
        match self.compile() {
            Ok(engine) => Ok(engine.is_satisfied(&self.hash_function)),
            Err(e) => Err(e),
        }
    }
}

/// The position of the first variable in the engine occupying slot
/// `index`, if any.
fn find_variable(engine: &R1CS, index: usize) -> (r: Option<usize>)
    ensures
        match r {
            Some(p) => p < engine.variables@.len() && find_slot(
                slots_model(engine.variables@),
                index as int,
            ) == Some(p as int),
            None => find_slot(slots_model(engine.variables@), index as int) is None,
        },
{
    let n = engine.variables.len();
    for i in 0..n
        invariant
            n == engine.variables@.len(),
            forall|k: int| 0 <= k < i ==> (#[trigger] slots_model(engine.variables@)[k]).index
                != index as int,
    {
        if engine.variables[i].index == index {
            proof {
                let s = slots_model(engine.variables@);
                assert(s[i as int] == slot_model(engine.variables@[i as int]));
                assert(s[i as int].index == index as int);
                lemma_find_slot_characterization(s, index as int);
                match find_slot(s, index as int) {
                    Some(p) => {
                        if p < i as int {
                            assert(s[p].index != index as int);
                        }
                        if p > i as int {
                            assert(s[i as int].index != index as int);
                        }
                    },
                    None => {
                        assert(s[i as int].index != index as int);
                    },
                }
            }
            return Some(i);
        }
        proof {
            assert(slots_model(engine.variables@)[i as int]
                == slot_model(engine.variables@[i as int]));
        }
    }
    proof {
        lemma_find_slot_characterization(slots_model(engine.variables@), index as int);
        match find_slot(slots_model(engine.variables@), index as int) {
            Some(p) => {
                assert((slots_model(engine.variables@)[p]).index == index as int);
            },
            None => {},
        }
    }
    None
}

/// A copy of a variable: same slot index, same value.
fn clone_variable(v: &Variable) -> (r: Variable)
    ensures
        slot_model(r) == slot_model(*v),
{
    Variable { index: v.index, value: big_clone(&v.value) }
}

/// The one-byte proof artifact: 1 for a satisfied system, 0 for an
/// unsatisfied one.
pub fn encode_proof_byte(satisfied: bool) -> (r: u8)
    ensures
        r == (if satisfied { 1u8 } else { 0u8 }),
{
    if satisfied { 1 } else { 0 }
}

/// Reading the artifact back: a proof byte means "satisfied" exactly when
/// it is 1.
pub fn decode_proof_byte(byte: u8) -> (r: bool)
    ensures
        r == (byte == 1),
{
    byte == 1
}

/// Law: an Add or Mul gate's output variable is recorded at the default
/// value zero, never at the true sum or product, so a circuit of one such
/// gate over valid input indices compiles, and is satisfied exactly when
/// the true sum or product is itself zero.
pub proof fn lemma_deferred_output_defaults_to_zero<H: HashFunction>(
    c: Circuit<H>,
    a: usize,
    b: usize,
    out: usize,
    op: Operation,
)
    requires
        op is Mul || op is Add,
        c.gates@ =~= seq![if op is Mul { Gate::Mul(a, b, out) } else { Gate::Add(a, b, out) }],
        a < c.inputs@.len(),
        b < c.inputs@.len(),
    ensures
        c.compile_model() is Ok,
        op is Add ==> c.satisfied_model()
            == (ints_of(c.inputs@)[a as int] + ints_of(c.inputs@)[b as int] == 0),
        op is Mul ==> c.satisfied_model()
            == (ints_of(c.inputs@)[a as int] * ints_of(c.inputs@)[b as int] == 0),
{
    let inputs = ints_of(c.inputs@);
    let vars = init_slots(inputs);
    let st0 = EngineModel { variables: vars, constraints: Seq::empty() };
    let h = &c.hash_function;
    lemma_find_slot_characterization(vars, a as int);
    let pa = find_slot(vars, a as int);
    if pa is None {
        assert(vars[a as int].index == a as int);
        assert(false);
    }
    assert(vars[pa->Some_0].index == a as int);
    assert(vars[pa->Some_0].index == pa->Some_0);
    assert(pa == Some(a as int));
    lemma_find_slot_characterization(vars, b as int);
    let pb = find_slot(vars, b as int);
    if pb is None {
        assert(vars[b as int].index == b as int);
        assert(false);
    }
    assert(vars[pb->Some_0].index == b as int);
    assert(pb == Some(b as int));
    let ls = seq![unit_term(vars[a as int])];
    let rs = seq![unit_term(vars[b as int])];
    let os = seq![TermModel { index: out as int, value: 0, coeff: 1 }];
    let cm = ConstraintModel { left: ls, right: rs, output: os, operation: op };
    assert(linear_gate_step(st0, a, b, out, op) == Ok::<EngineModel, usize>(
        (EngineModel { variables: vars, constraints: st0.constraints.push(cm) }),
    ));
    assert(c.gates@.skip(0) =~= c.gates@);
    assert(c.gates@.drop_first() =~= Seq::<Gate>::empty());
    let st1 = EngineModel { variables: vars, constraints: st0.constraints.push(cm) };
    assert(run_gates(st1, c.gates@.drop_first(), inputs, h) == Ok::<EngineModel, usize>(st1));
    assert(c.compile_model() == Ok::<EngineModel, usize>(st1));
    lemma_lc_sum_single(unit_term(vars[a as int]));
    lemma_lc_sum_single(unit_term(vars[b as int]));
    lemma_lc_sum_single(TermModel { index: out as int, value: 0, coeff: 1 });
    assert(inputs.len() == c.inputs@.len());
    assert(vars[a as int].value == inputs[a as int]);
    assert(vars[b as int].value == inputs[b as int]);
    assert(cm.left == ls && cm.right == rs && cm.output == os);
    assert(lc_sum(ls) == inputs[a as int]);
    assert(lc_sum(rs) == inputs[b as int]);
    assert(lc_sum(os) == 0);
    assert(st1.constraints[0] == cm);
    assert(st1.constraints.len() == 1);
    if constraint_holds(cm, h) {
        assert(forall|i: int| 0 <= i < st1.constraints.len()
            ==> constraint_holds(#[trigger] st1.constraints[i], h));
    } else {
        assert(!constraints_satisfied(st1.constraints, h));
    }
}

/// Law: a single Hash gate whose output index differs from both operand
/// indices compiles to a satisfied system: the compiler assigns the output
/// slot the combined value eagerly, and the check recomputes the very same
/// combination.
pub proof fn lemma_hash_gate_satisfied<H: HashFunction>(
    c: Circuit<H>,
    a: usize,
    b: usize,
    out: usize,
)
    requires
        c.gates@ =~= seq![Gate::Hash(a, b, out)],
        a < c.inputs@.len(),
        b < c.inputs@.len(),
        out != a,
        out != b,
    ensures
        c.compile_model() is Ok,
        c.satisfied_model(),
{
    let inputs = ints_of(c.inputs@);
    let vars = init_slots(inputs);
    let st0 = EngineModel { variables: vars, constraints: Seq::empty() };
    let h = &c.hash_function;
    let hv = h.hash_spec(inputs[a as int], inputs[b as int]);
    assert(inputs.len() == c.inputs@.len());
    lemma_find_slot_characterization(vars, out as int);
    let written = match find_slot(vars, out as int) {
        Some(p) => vars.update(p, SlotModel { index: out as int, value: hv }),
        None => vars.push(SlotModel { index: out as int, value: hv }),
    };
    match find_slot(vars, out as int) {
        Some(p) => {
            assert(vars[p].index == out as int);
            assert(vars[p].index == p);
            assert(p == out as int);
            assert(forall|k: int| 0 <= k < written.len()
                ==> (#[trigger] written[k]).index == k);
        },
        None => {
            assert(forall|k: int| 0 <= k < vars.len()
                ==> (#[trigger] written[k]).index == k);
            assert(written[vars.len() as int].index == out as int);
        },
    }
    assert(written[a as int] == (SlotModel { index: a as int, value: inputs[a as int] }));
    assert(written[b as int] == (SlotModel { index: b as int, value: inputs[b as int] }));
    lemma_find_slot_characterization(written, a as int);
    let pa = find_slot(written, a as int);
    if pa is None {
        assert(written[a as int].index == a as int);
        assert(false);
    }
    assert(written[pa->Some_0].index == a as int);
    assert(pa == Some(a as int));
    lemma_find_slot_characterization(written, b as int);
    let pb = find_slot(written, b as int);
    if pb is None {
        assert(written[b as int].index == b as int);
        assert(false);
    }
    assert(written[pb->Some_0].index == b as int);
    assert(pb == Some(b as int));
    let ls = seq![unit_term(written[a as int])];
    let rs = seq![unit_term(written[b as int])];
    let os = seq![TermModel { index: out as int, value: hv, coeff: 1 }];
    let cm = ConstraintModel { left: ls, right: rs, output: os, operation: Operation::Hash };
    let st1 = EngineModel { variables: written, constraints: st0.constraints.push(cm) };
    assert(hash_gate_step(st0, a, b, out, inputs, h) == Ok::<EngineModel, usize>(st1));
    assert(c.gates@.skip(0) =~= c.gates@);
    assert(c.gates@.drop_first() =~= Seq::<Gate>::empty());
    assert(run_gates(st1, c.gates@.drop_first(), inputs, h) == Ok::<EngineModel, usize>(st1));
    assert(c.compile_model() == Ok::<EngineModel, usize>(st1));
    lemma_lc_sum_single(unit_term(written[a as int]));
    lemma_lc_sum_single(unit_term(written[b as int]));
    lemma_lc_sum_single(TermModel { index: out as int, value: hv, coeff: 1 });
    assert(lc_sum(ls) == inputs[a as int]);
    assert(lc_sum(rs) == inputs[b as int]);
    assert(lc_sum(os) == hv);
    assert(constraint_holds(cm, h));
    assert(st1.constraints.len() == 1);
    assert(st1.constraints[0] == cm);
    assert(forall|i: int| 0 <= i < st1.constraints.len()
        ==> constraint_holds(#[trigger] st1.constraints[i], h));
}

/// The scalar of a one-term combination is its value times its coefficient;
/// with coefficient one, the value itself.
proof fn lemma_lc_sum_single(t: TermModel)
    ensures
        lc_sum(seq![t]) == t.value * t.coeff,
        t.coeff == 1 ==> lc_sum(seq![t]) == t.value,
{
    assert(seq![t].drop_last() =~= Seq::<TermModel>::empty());
    assert(lc_sum(seq![t].drop_last()) == 0);
    assert(t.value * 1 == t.value) by (nonlinear_arith);
}

} // verus!
