// The oracle's own behaviour: assert-zero and assert-equal checking and
// lookup membership under the challenge-derived table encoding.

use zkcircuit::cs::{CircuitBuilder, ConstraintSystem};
use zkcircuit::expr::{ExprNode, WitIn};
use zkcircuit::field::{Ext, Fp};
use zkcircuit::mock_prover::{MockProver, MockProverError};

struct AssertZeroCircuit {
    #[allow(dead_code)]
    a: WitIn,
    #[allow(dead_code)]
    b: WitIn,
    #[allow(dead_code)]
    c: WitIn,
}

impl AssertZeroCircuit {
    fn construct_circuit(cb: &mut CircuitBuilder) -> AssertZeroCircuit {
        let a = cb.create_witin("a");
        let b = cb.create_witin("b");
        let c = cb.create_witin("c");

        // degree 1
        let ae = cb.expr_wit(a);
        let be = cb.expr_wit(b);
        let ce = cb.expr_wit(c);
        let one = cb.expr_const_u64(1);
        let a_plus_1 = cb.expr_sum(ae, one);
        cb.require_equal("a + 1 == b", be, a_plus_1).unwrap();
        let two = cb.expr_const_u64(2);
        let c_minus_2 = cb.expr_sub(ce, two);
        cb.require_zero("c - 2 == 0", c_minus_2).unwrap();

        // degree > 1
        let d = cb.create_witin("d");
        let de = cb.expr_wit(d);
        let dd = cb.expr_product(de, de);
        let six = cb.expr_const_u64(6);
        let six_d = cb.expr_product(six, de);
        let nine = cb.expr_const_u64(9);
        let quad = cb.expr_sub(dd, six_d);
        let poly = cb.expr_sum(quad, nine);
        cb.require_zero("d*d - 6*d + 9 == 0", poly).unwrap();

        AssertZeroCircuit { a, b, c }
    }
}

fn row(values: &[u64]) -> Vec<Fp> {
    values.iter().map(|v| Fp::from_u64(*v)).collect()
}

#[test]
fn test_assert_zero_1() {
    let cs = ConstraintSystem::new("test_assert_zero_1");
    let mut builder = CircuitBuilder::new(cs);

    let _ = AssertZeroCircuit::construct_circuit(&mut builder);

    // Two rows over columns (a, b, c, d).
    let wits_in = vec![row(&[3, 4, 2, 3]), row(&[500, 501, 2, 3])];

    assert!(MockProver::assert_satisfied(&builder, &wits_in, &vec![], None));
}

struct RangeCheckCircuit {
    #[allow(dead_code)]
    a: WitIn,
}

impl RangeCheckCircuit {
    fn construct_circuit(cb: &mut CircuitBuilder) -> RangeCheckCircuit {
        let a = cb.create_witin("a");
        let ae = cb.expr_wit(a);
        cb.assert_ux::<5>("assert u5", ae).unwrap();
        RangeCheckCircuit { a }
    }
}

#[test]
fn test_lookup_1() {
    let cs = ConstraintSystem::new("test_lookup_1");
    let mut builder = CircuitBuilder::new(cs);

    let _ = RangeCheckCircuit::construct_circuit(&mut builder);

    let wits_in = vec![row(&[3]), row(&[5])];

    let challenge = (Ext::from_u64(1), Ext::from_u64(1000));
    assert!(MockProver::assert_satisfied(&builder, &wits_in, &vec![], Some(challenge)));
}

#[test]
fn test_lookup_error() {
    let cs = ConstraintSystem::new("test_lookup_error");
    let mut builder = CircuitBuilder::new(cs);

    let _ = RangeCheckCircuit::construct_circuit(&mut builder);

    let wits_in = vec![row(&[123])];

    let challenge = (Ext::from_u64(2), Ext::from_u64(1000));
    let result = MockProver::run(&builder, &wits_in, &vec![], Some(challenge));
    assert!(result.is_err(), "Expected error");
    let err = result.unwrap_err();
    assert_eq!(err.len(), 1);
    match &err[0] {
        MockProverError::LookupError { expression, evaluated, name, row } => {
            // The registered record is value·β + (tag·β^0 + α), over witness 0.
            match builder.cs.nodes[*expression] {
                ExprNode::ScaledSum(x, _, _) => {
                    assert!(matches!(builder.cs.nodes[x], ExprNode::Wit(0)));
                }
                _ => panic!("unexpected lookup expression shape"),
            }
            // 123 * 1000 + 2
            assert_eq!(*evaluated, Ext::from_u64(123002));
            assert_eq!(name, "test_lookup_error/assert_u5/assert u5");
            assert_eq!(*row, 0);
        }
        _ => panic!("expected a lookup error"),
    }
}

// A 5-bit-checked column holding an in-range value passes the same encoding
// that rejects 123.
#[test]
fn test_lookup_in_range_value_passes() {
    let cs = ConstraintSystem::new("test_lookup_error");
    let mut builder = CircuitBuilder::new(cs);
    let _ = RangeCheckCircuit::construct_circuit(&mut builder);
    let wits_in = vec![row(&[5])];
    let challenge = (Ext::from_u64(2), Ext::from_u64(1000));
    assert!(MockProver::assert_satisfied(&builder, &wits_in, &vec![], Some(challenge)));
}
