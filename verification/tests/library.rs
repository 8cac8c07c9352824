use num_bigint::BigInt;
use r1cs_merkle::circuit::Circuit;
use r1cs_merkle::circuit::CircuitError;
use r1cs_merkle::circuit::Gate;
use r1cs_merkle::circuit::decode_proof_byte;
use r1cs_merkle::circuit::encode_proof_byte;
use r1cs_merkle::hash_functions::Customhash;
use r1cs_merkle::hash_functions::SimpleHash;
use r1cs_merkle::merkle::MerkleTree;
use r1cs_merkle::merkle::recompute_root;
use r1cs_merkle::r1cs::Operation;
use r1cs_merkle::r1cs::R1CS;
use r1cs_merkle::r1cs::Variable;

fn big(x: i64) -> BigInt {
    BigInt::from(x)
}

fn leaves(xs: &[i64]) -> Vec<BigInt> {
    xs.iter().map(|x| big(*x)).collect()
}

fn unit_lc(index: usize, value: i64) -> Vec<(Variable, BigInt)> {
    vec![(Variable { index, value: big(value) }, big(1))]
}

#[test]
fn merkle_three_leaf_worked_example() {
    // leaves [1,2,3] pad to [1,2,3,3]: level one is [3,6], root 9.
    let tree = MerkleTree::new(leaves(&[1, 2, 3]), SimpleHash);
    assert_eq!(tree.root, big(9));
    // index 2 is even, so its sibling is the duplicated 3 to the right;
    // one level up the index is 1, odd, so the sibling 3 is to the left.
    let path = tree.merkle_path(2);
    assert_eq!(path, vec![(big(3), false), (big(3), true)]);
    assert_eq!(recompute_root(&tree.leaves[2], &path, &SimpleHash), big(9));
}

#[test]
fn merkle_single_leaf_root_is_leaf() {
    let tree = MerkleTree::new(leaves(&[42]), SimpleHash);
    assert_eq!(tree.root, big(42));
    assert_eq!(tree.merkle_path(0), vec![]);
}

#[test]
fn merkle_two_leaves_combine() {
    let tree = MerkleTree::new(leaves(&[1, 2]), SimpleHash);
    assert_eq!(tree.root, big(3));
    assert_eq!(tree.merkle_path(0), vec![(big(2), false)]);
    assert_eq!(tree.merkle_path(1), vec![(big(1), true)]);
}

#[test]
fn merkle_root_reproducible() {
    let first = MerkleTree::new(leaves(&[7, -3, 11, 0, 5]), SimpleHash);
    let second = MerkleTree::new(leaves(&[7, -3, 11, 0, 5]), SimpleHash);
    assert_eq!(first.root, second.root);
    assert_eq!(first.root, MerkleTree::new(leaves(&[7, -3, 11, 0, 5]), Customhash).root);
}

#[test]
fn merkle_path_folds_back_to_root() {
    let tree = MerkleTree::new(leaves(&[5, 9, 12, 4, 7, -2, 33]), SimpleHash);
    for i in 0..7usize {
        let path = tree.merkle_path(i);
        let folded = recompute_root(&tree.leaves[i], &path, &SimpleHash);
        assert_eq!(folded, tree.root, "leaf {}", i);
    }
}

#[test]
fn r1cs_add_constraint_satisfied_and_violated() {
    // x0 + x1 == x2 with 2 + 3 == 5 holds; with x2 = 6 it does not.
    let mut ok = R1CS::new();
    ok.add_constraint(unit_lc(0, 2), unit_lc(1, 3), unit_lc(2, 5), Operation::Add);
    assert!(ok.is_satisfied(&SimpleHash));

    let mut bad = R1CS::new();
    bad.add_constraint(unit_lc(0, 2), unit_lc(1, 3), unit_lc(2, 6), Operation::Add);
    assert!(!bad.is_satisfied(&SimpleHash));
}

#[test]
fn r1cs_mul_and_hash_constraints() {
    let mut engine = R1CS::new();
    engine.add_constraint(unit_lc(0, 3), unit_lc(1, 4), unit_lc(2, 12), Operation::Mul);
    engine.add_constraint(unit_lc(0, 4), unit_lc(1, 6), unit_lc(2, 10), Operation::Hash);
    assert!(engine.is_satisfied(&SimpleHash));

    let mut bad = R1CS::new();
    bad.add_constraint(unit_lc(0, 3), unit_lc(1, 4), unit_lc(2, 13), Operation::Mul);
    assert!(!bad.is_satisfied(&SimpleHash));
}

#[test]
fn r1cs_coefficients_weight_the_sum() {
    // left = 2*x0 + 3*x1 = 2*5 + 3*1 = 13; right = 0; 13 + 0 == 13.
    let mut engine = R1CS::new();
    let left = vec![
        (Variable { index: 0, value: big(5) }, big(2)),
        (Variable { index: 1, value: big(1) }, big(3)),
    ];
    let right = vec![(Variable { index: 2, value: big(0) }, big(1))];
    let output = vec![(Variable { index: 3, value: big(13) }, big(1))];
    engine.add_constraint(left, right, output, Operation::Add);
    assert!(engine.is_satisfied(&SimpleHash));
}

#[test]
fn r1cs_is_satisfied_is_idempotent() {
    let mut engine = R1CS::new();
    engine.add_constraint(unit_lc(0, 2), unit_lc(1, 3), unit_lc(2, 5), Operation::Add);
    let first = engine.is_satisfied(&SimpleHash);
    let second = engine.is_satisfied(&SimpleHash);
    assert_eq!(first, second);
    assert!(first);

    let mut bad = R1CS::new();
    bad.add_constraint(unit_lc(0, 1), unit_lc(1, 1), unit_lc(2, 3), Operation::Add);
    assert_eq!(bad.is_satisfied(&SimpleHash), bad.is_satisfied(&SimpleHash));
}

#[test]
fn hash_gate_compiles_satisfied() {
    // The compiler assigns the hash output eagerly, so the check passes.
    let mut circuit = Circuit::<SimpleHash>::new(None);
    circuit.add_input(big(4));
    circuit.add_input(big(6));
    circuit.add_gate(Gate::Hash(0, 1, 2));
    assert_eq!(circuit.compile_and_check().unwrap(), true);
}

#[test]
fn hash_gate_overwrites_existing_slot() {
    // The output index names an existing input slot: its value is replaced
    // by the computed hash before the check runs.
    let mut circuit = Circuit::<SimpleHash>::new(None);
    circuit.add_input(big(4));
    circuit.add_input(big(6));
    circuit.add_input(big(99));
    circuit.add_gate(Gate::Hash(0, 1, 2));
    assert_eq!(circuit.compile_and_check().unwrap(), true);
}

#[test]
fn hash_gate_with_supplied_function() {
    let mut circuit = Circuit::new(Some(Customhash));
    circuit.add_input(big(10));
    circuit.add_input(big(-3));
    circuit.add_gate(Gate::Hash(0, 1, 7));
    assert_eq!(circuit.compile_and_check().unwrap(), true);
}

#[test]
fn mul_gate_output_defaults_to_zero() {
    // The compiler never computes an Add/Mul gate's output: the output
    // variable stays at the default zero, so with non-zero operands the
    // check fails...
    let mut circuit = Circuit::<SimpleHash>::new(None);
    circuit.add_input(big(2));
    circuit.add_input(big(3));
    circuit.add_gate(Gate::Mul(0, 1, 2));
    assert_eq!(circuit.compile_and_check().unwrap(), false);

    // ...and with a zero product the default happens to agree.
    let mut zero = Circuit::<SimpleHash>::new(None);
    zero.add_input(big(0));
    zero.add_input(big(3));
    zero.add_gate(Gate::Mul(0, 1, 2));
    assert_eq!(zero.compile_and_check().unwrap(), true);
}

#[test]
fn add_gate_output_defaults_to_zero() {
    let mut circuit = Circuit::<SimpleHash>::new(None);
    circuit.add_input(big(2));
    circuit.add_input(big(3));
    circuit.add_gate(Gate::Add(0, 1, 2));
    assert_eq!(circuit.compile_and_check().unwrap(), false);

    let mut balanced = Circuit::<SimpleHash>::new(None);
    balanced.add_input(big(4));
    balanced.add_input(big(-4));
    balanced.add_gate(Gate::Add(0, 1, 2));
    assert_eq!(balanced.compile_and_check().unwrap(), true);
}

#[test]
fn invalid_variable_reference_is_an_error() {
    let mut circuit = Circuit::<SimpleHash>::new(None);
    circuit.add_input(big(1));
    circuit.add_input(big(2));
    circuit.add_gate(Gate::Add(0, 5, 2));
    assert!(matches!(
        circuit.compile_and_check(),
        Err(CircuitError::InvalidVariableReference(5))
    ));

    let mut hash_bad = Circuit::<SimpleHash>::new(None);
    hash_bad.add_input(big(1));
    hash_bad.add_gate(Gate::Hash(0, 3, 1));
    assert!(matches!(
        hash_bad.compile_and_check(),
        Err(CircuitError::InvalidVariableReference(3))
    ));
}

#[test]
fn compile_records_gates_in_order() {
    // A hash gate writes slot 2, and a later Add gate reads it back.
    let mut circuit = Circuit::<SimpleHash>::new(None);
    circuit.add_input(big(4));
    circuit.add_input(big(6));
    circuit.add_input(big(0));
    circuit.add_gate(Gate::Hash(0, 1, 2));
    circuit.add_gate(Gate::Add(2, 0, 3));
    // The Add output defaults to zero while 10 + 4 = 14, so overall false.
    assert_eq!(circuit.compile_and_check().unwrap(), false);
    let engine = circuit.compile().unwrap();
    assert_eq!(engine.constraints.len(), 2);
    assert_eq!(engine.variables.len(), 3);
    assert_eq!(engine.variables[2].value, big(10));
}

#[test]
fn get_input_bounds() {
    let mut circuit = Circuit::<SimpleHash>::new(None);
    let i0 = circuit.add_input(big(8));
    let i1 = circuit.add_input(big(9));
    assert_eq!((i0, i1), (0, 1));
    assert_eq!(circuit.get_input(1), Some(&big(9)));
    assert_eq!(circuit.get_input(2), None);
    circuit.add_output(big(17));
}

#[test]
fn proof_byte_round_trip() {
    assert_eq!(encode_proof_byte(true), 1);
    assert_eq!(encode_proof_byte(false), 0);
    assert!(decode_proof_byte(1));
    assert!(!decode_proof_byte(0));
    assert!(!decode_proof_byte(7));
    assert!(decode_proof_byte(encode_proof_byte(true)));
    assert!(!decode_proof_byte(encode_proof_byte(false)));
}
