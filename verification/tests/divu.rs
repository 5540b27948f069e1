// The unsigned-division circuit end to end: construct, assign from a step
// record, and check the whole system with the oracle.

use rand::Rng;

use zkcircuit::cs::{CircuitBuilder, ConstraintSystem};
use zkcircuit::divu::{DivUInstruction, StepRecord};
use zkcircuit::mock_prover::{MockProver, MockProverError};

fn verify(name: &'static str, dividend: u32, divisor: u32, exp_outcome: u32, is_ok: bool) {
    let cs = ConstraintSystem::new("riscv");
    let mut cb = CircuitBuilder::new(cs);
    cb.push_namespace("divu");
    let config = DivUInstruction::construct_circuit(&mut cb).unwrap();
    cb.pop_namespace();

    let outcome = if divisor == 0 { u32::MAX } else { dividend / divisor };

    // values assignment
    let num_witin = cb.cs.num_witin();
    let steps = vec![StepRecord::new_r_instruction(dividend, divisor, outcome)];
    let (raw_witin, _lkm) =
        DivUInstruction::assign_instances(&config, num_witin, &steps).unwrap();

    let expected_rd_written = cb.expr_const_u64(exp_outcome as u64);
    cb.require_equal("assert_outcome", config.outcome.value(), expected_rd_written)
        .unwrap();

    let result = MockProver::run(&cb, &raw_witin, &vec![], None);
    if is_ok {
        assert!(result.is_ok(), "unexpected violations in case {name}");
    } else {
        let errors = result.unwrap_err();
        assert!(!errors.is_empty(), "expected a violation in case {name}");
        for e in &errors {
            let err_name = match e {
                MockProverError::AssertZeroError { name, .. } => name,
                MockProverError::AssertEqualError { name, .. } => name,
                MockProverError::LookupError { name, .. } => name,
            };
            assert!(
                err_name.contains(name),
                "spurious violation {err_name} in case {name}"
            );
        }
    }
}

#[test]
fn test_opcode_divu() {
    verify("basic", 10, 2, 5, true);
    verify("dividend > divisor", 10, 11, 0, true);
    verify("remainder", 11, 2, 5, true);
    verify("u32::MAX", u32::MAX, u32::MAX, 1, true);
    verify("div u32::MAX", 3, u32::MAX, 0, true);
    verify("u32::MAX div by 2", u32::MAX, 2, u32::MAX / 2, true);
    verify("mul with carries", 1202729773, 171818539, 7, true);
    verify("div by zero", 10, 0, u32::MAX, true);
}

#[test]
fn test_opcode_divu_unstatisfied() {
    verify("assert_outcome", 10, 2, 3, false);
}

#[test]
fn test_opcode_divu_random() {
    let mut rng = rand::thread_rng();
    let a: u32 = rng.gen();
    let b: u32 = rng.gen_range(1..u32::MAX);
    verify("random", a, b, a / b, true);
}

// The division-by-zero convention in detail: outcome forced to all-ones,
// the zero flag raised, the less-than flag cleared, and their sum one.
#[test]
fn test_divu_by_zero_flags() {
    let cs = ConstraintSystem::new("riscv");
    let mut cb = CircuitBuilder::new(cs);
    let config = DivUInstruction::construct_circuit(&mut cb).unwrap();
    let num_witin = cb.cs.num_witin();
    let steps = vec![StepRecord::new_r_instruction(10, 0, u32::MAX)];
    let (rows, _lkm) = DivUInstruction::assign_instances(&config, num_witin, &steps).unwrap();
    // outcome columns hold 0xFFFFFFFF limb-wise
    assert_eq!(rows[0][config.outcome.limbs[0].id].as_u64(), 0xffff);
    assert_eq!(rows[0][config.outcome.limbs[1].id].as_u64(), 0xffff);
    // is_zero = 1 and remainder_lt = 0: the guard identity sums to one
    assert_eq!(rows[0][config.is_zero.is_zero.id].as_u64(), 1);
    assert_eq!(rows[0][config.remainder_lt.is_lt.id].as_u64(), 0);
    assert!(MockProver::run(&cb, &rows, &vec![], None).is_ok());
}
