// The gadget layer on concrete values: the borrow-rule limb round trip, the
// less-than flag's soundness under the oracle, field arithmetic edge values,
// and multiplicity bookkeeping.

use rand::Rng;

use zkcircuit::cs::{CircuitBuilder, ConstraintSystem};
use zkcircuit::field::{Fp, FIELD_MODULUS};
use zkcircuit::is_lt::{cal_lt_diff, IsLtConfig};
use zkcircuit::lkm::LkMultiplicity;
use zkcircuit::mock_prover::MockProver;
use zkcircuit::uint::Value;

// The borrow rule and 16-bit slicing reconstruct exactly
// lhs - rhs + (lhs < rhs ? 2^(16 L) : 0), with every limb in range.
#[test]
fn test_limb_round_trip_values() {
    let cases: &[(usize, u64, u64)] = &[
        (1, 0, 0),
        (1, 7, 9),
        (1, 65535, 1),
        (2, 10, 2),
        (2, 5, 4_000_000_000),
        (2, 0xffff_ffff, 0xffff_ffff),
        (3, 1, 0xffff_ffff_ffff),
        (3, 0xffff_ffff_ffff, 1),
    ];
    for &(l, lhs, rhs) in cases {
        let is_lt = lhs < rhs;
        let diff = cal_lt_diff(is_lt, l, lhs, rhs);
        let borrow: u128 = if is_lt { 1u128 << (16 * l) } else { 0 };
        assert_eq!(diff as u128, lhs as u128 + borrow - rhs as u128);
        let mut rebuilt: u64 = 0;
        for i in 0..l {
            let limb = (diff >> (16 * i)) & 0xffff;
            assert!(limb < 65536);
            rebuilt += limb << (16 * i);
        }
        assert_eq!(rebuilt, diff);
    }
}

// Builds a circuit with one witness word on each side of an IsLt gadget and
// returns the builder, the column handles and one honestly assigned row.
fn is_lt_fixture(lhs: u64, rhs: u64) -> (CircuitBuilder, IsLtConfig, Vec<Fp>) {
    let cs = ConstraintSystem::new("is_lt_oracle");
    let mut cb = CircuitBuilder::new(cs);
    let a = cb.create_witin("a");
    let b = cb.create_witin("b");
    let ae = cb.expr_wit(a);
    let be = cb.expr_wit(b);
    let config = IsLtConfig::construct_circuit(&mut cb, "a lt b", ae, be, 2).unwrap();
    let num_witin = cb.cs.num_witin();
    let mut row: Vec<Fp> = (0..num_witin).map(|_| Fp::zero()).collect();
    row[a.id] = Fp::from_u64(lhs);
    row[b.id] = Fp::from_u64(rhs);
    let mut lkm = LkMultiplicity::new();
    config
        .assign_instance(&mut row, &mut lkm, lhs, rhs)
        .unwrap();
    (cb, config, row)
}

// For sampled pairs, an honestly assigned witness satisfies the oracle, and
// flipping the is_lt bit while keeping the limbs produces a violation.
#[test]
fn test_is_lt_boolean_soundness() {
    let mut rng = rand::thread_rng();
    let mut cases: Vec<(u64, u64)> = vec![(0, 0), (0, 1), (1, 0), (5, 5), (0xffff_ffff, 0)];
    for _ in 0..10 {
        cases.push((rng.gen::<u32>() as u64, rng.gen::<u32>() as u64));
    }
    for (lhs, rhs) in cases {
        let (cb, config, row) = is_lt_fixture(lhs, rhs);
        let honest = vec![row.clone()];
        assert!(
            MockProver::run(&cb, &honest, &vec![], None).is_ok(),
            "honest witness rejected for ({lhs}, {rhs})"
        );
        let mut flipped_row = row;
        let bit = flipped_row[config.is_lt.id].as_u64();
        flipped_row[config.is_lt.id] = Fp::from_u64(1 - bit);
        let flipped = vec![flipped_row];
        assert!(
            MockProver::run(&cb, &flipped, &vec![], None).is_err(),
            "flipped flag accepted for ({lhs}, {rhs})"
        );
    }
}

// Field arithmetic at the wrap-around: the modulus reduces to zero and
// subtraction borrows across it.
#[test]
fn test_field_edge_values() {
    assert_eq!(Fp::from_u64(FIELD_MODULUS).as_u64(), 0);
    let p_minus_1 = Fp::from_u64(FIELD_MODULUS - 1);
    assert_eq!(p_minus_1.add(Fp::from_u64(2)).as_u64(), 1);
    assert_eq!(Fp::zero().sub(Fp::one()).as_u64(), FIELD_MODULUS - 1);
    assert_eq!(p_minus_1.mul(p_minus_1).as_u64(), 1);
    let x = Fp::from_u64(123_456_789);
    let inv = x.inverse();
    assert_eq!(inv.mul(x).as_u64(), 1);
    assert_eq!(Fp::zero().inverse().as_u64(), 0);
}

// Assigning an IsLt instance reports exactly its limbs to the 16-bit table.
#[test]
fn test_is_lt_multiplicities() {
    let mut lkm = LkMultiplicity::new();
    let (_, config, _) = is_lt_fixture(0, 0);
    let mut row: Vec<Fp> = (0..16).map(|_| Fp::zero()).collect();
    // 10 < 2 is false: diff = 8, limbs (8, 0).
    config.assign_instance(&mut row, &mut lkm, 10, 2).unwrap();
    assert_eq!(lkm.ux_count::<16>(8), 1);
    assert_eq!(lkm.ux_count::<16>(0), 1);
    assert_eq!(lkm.ux_count::<16>(7), 0);
    assert_eq!(lkm.ux_count::<5>(8), 0);
    // A checked operand word reports both its limbs.
    let _ = Value::new(0x0001_0002, &mut lkm);
    assert_eq!(lkm.ux_count::<16>(2), 1);
    assert_eq!(lkm.ux_count::<16>(1), 1);
}

// The signed comparison end to end: words assigned with two's-complement
// bits, sign bits extracted, and the flag matching the signed order; a
// flipped flag is rejected by the oracle.
#[test]
fn test_signed_lt_oracle() {
    let mut rng = rand::thread_rng();
    let mut cases: Vec<(i32, i32)> = vec![
        (3, 5),
        (-3, 5),
        (5, -3),
        (-5, -3),
        (-1, -1),
        (i32::MIN, i32::MAX),
        (i32::MAX, i32::MIN),
    ];
    for _ in 0..5 {
        cases.push((rng.gen::<i32>(), rng.gen::<i32>()));
    }
    for (lhs, rhs) in cases {
        let cs = ConstraintSystem::new("signed_lt_oracle");
        let mut cb = CircuitBuilder::new(cs);
        let a = zkcircuit::uint::UInt::new("a", &mut cb).unwrap();
        let b = zkcircuit::uint::UInt::new("b", &mut cb).unwrap();
        let config =
            zkcircuit::is_lt::SignedLtConfig::construct_circuit(&mut cb, "a slt b", &a, &b)
                .unwrap();
        let num_witin = cb.cs.num_witin();
        let mut row: Vec<Fp> = (0..num_witin).map(|_| Fp::zero()).collect();
        let mut lkm = LkMultiplicity::new();
        let a_word = lhs as u32 as u64;
        let b_word = rhs as u32 as u64;
        a.assign_limbs(&mut row, a_word % 0x10000, a_word / 0x10000);
        b.assign_limbs(&mut row, b_word % 0x10000, b_word / 0x10000);
        config.assign_instance(&mut row, &mut lkm, lhs, rhs).unwrap();
        assert_eq!(
            row[config.is_lt.id].as_u64(),
            if lhs < rhs { 1 } else { 0 },
            "flag wrong for ({lhs}, {rhs})"
        );
        let honest = vec![row.clone()];
        assert!(
            MockProver::run(&cb, &honest, &vec![], None).is_ok(),
            "honest signed witness rejected for ({lhs}, {rhs})"
        );
        let mut flipped_row = row;
        let bit = flipped_row[config.is_lt.id].as_u64();
        flipped_row[config.is_lt.id] = Fp::from_u64(1 - bit);
        assert!(
            MockProver::run(&cb, &vec![flipped_row], &vec![], None).is_err(),
            "flipped signed flag accepted for ({lhs}, {rhs})"
        );
    }
}

// The unconditional less-than assertion: satisfied exactly when the left
// operand is below the right one.
#[test]
fn test_assert_lt_oracle() {
    for (lhs, rhs) in [(2u64, 10u64), (0, 1), (10, 2), (5, 5)] {
        let cs = ConstraintSystem::new("assert_lt_oracle");
        let mut cb = CircuitBuilder::new(cs);
        let a = cb.create_witin("a");
        let b = cb.create_witin("b");
        let ae = cb.expr_wit(a);
        let be = cb.expr_wit(b);
        let config =
            zkcircuit::is_lt::AssertLTConfig::construct_circuit(&mut cb, "a lt b", ae, be, 2)
                .unwrap();
        let num_witin = cb.cs.num_witin();
        let mut row: Vec<Fp> = (0..num_witin).map(|_| Fp::zero()).collect();
        row[a.id] = Fp::from_u64(lhs);
        row[b.id] = Fp::from_u64(rhs);
        let mut lkm = LkMultiplicity::new();
        config.assign_instance(&mut row, &mut lkm, lhs, rhs).unwrap();
        let result = MockProver::run(&cb, &vec![row], &vec![], None);
        if lhs < rhs {
            assert!(result.is_ok(), "assertion rejected for {lhs} < {rhs}");
        } else {
            assert!(result.is_err(), "assertion accepted for {lhs} >= {rhs}");
        }
    }
}
