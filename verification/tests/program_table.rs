// The fixed program table: record layout, immediate encoding, fixed-trace
// generation with padding, and per-instruction fetch multiplicities.

use zkcircuit::cs::{CircuitBuilder, ConstraintSystem};
use zkcircuit::field::FIELD_MODULUS;
use zkcircuit::lkm::CountMap;
use zkcircuit::program::{
    DecodedInstruction, InsnRecord, Program, ProgramTableCircuit, PC_STEP_SIZE, RD_NULL,
};

fn sample_program() -> Program {
    Program {
        base_address: 0x2000_0000,
        instructions: vec![
            DecodedInstruction {
                kind: 7,
                rd_internal: 4,
                rs1_or_zero: 2,
                rs2_or_zero: 3,
                imm_internal: 0,
                imm_field_is_negative: false,
            },
            DecodedInstruction {
                kind: 9,
                rd_internal: 1,
                rs1_or_zero: 5,
                rs2_or_zero: 0,
                imm_internal: 0xffff_fffc,
                imm_field_is_negative: true,
            },
        ],
    }
}

#[test]
fn test_insn_record_fields() {
    let rec = InsnRecord::new(0x2000_0000, 7, None, 2, 3, 12);
    assert_eq!(rec.as_slice(), &[0x2000_0000, 7, RD_NULL, 2, 3, 12]);
    let rec2 = InsnRecord::new(0x2000_0004, 9, Some(4), 2, 3, 12);
    assert_eq!(rec2.as_slice(), &[0x2000_0004, 9, 4, 2, 3, 12]);
    assert_eq!(*rec2.imm_internal(), 12);
    assert_eq!(rec2.without_imm(), vec![0x2000_0004, 9, 4, 2, 3]);
}

#[test]
fn test_imm_internal_field_encoding() {
    let positive = DecodedInstruction {
        kind: 0,
        rd_internal: 0,
        rs1_or_zero: 0,
        rs2_or_zero: 0,
        imm_internal: 12,
        imm_field_is_negative: false,
    };
    assert_eq!(InsnRecord::imm_internal_field(&positive).as_u64(), 12);
    // -4 in two's complement: the field residue is the modulus less four.
    let negative = DecodedInstruction {
        imm_internal: 0xffff_fffc,
        imm_field_is_negative: true,
        ..positive
    };
    assert_eq!(
        InsnRecord::imm_internal_field(&negative).as_u64(),
        FIELD_MODULUS - 4
    );
}

#[test]
fn test_program_table_traces() {
    let cs = ConstraintSystem::new("program_table");
    let mut cb = CircuitBuilder::new(cs);
    let config = ProgramTableCircuit::<4>::construct_circuit(&mut cb).unwrap();
    let program = sample_program();

    let num_fixed = cb.cs.num_fixed();
    let fixed = ProgramTableCircuit::<4>::generate_fixed_traces(&config, num_fixed, &program);
    assert_eq!(fixed.len(), 4);
    let pc_col = config.record.0[0].id;
    let kind_col = config.record.0[1].id;
    let imm_col = config.record.0[5].id;
    assert_eq!(fixed[0][pc_col].as_u64(), 0x2000_0000);
    assert_eq!(fixed[1][pc_col].as_u64(), 0x2000_0000 + PC_STEP_SIZE as u64);
    assert_eq!(fixed[0][kind_col].as_u64(), 7);
    assert_eq!(fixed[1][kind_col].as_u64(), 9);
    assert_eq!(fixed[1][imm_col].as_u64(), FIELD_MODULUS - 4);
    // padding rows stay zero
    assert_eq!(fixed[2][pc_col].as_u64(), 0);
    assert_eq!(fixed[3][kind_col].as_u64(), 0);

    // The first instruction fetched three times, the second never.
    let mut mlt = CountMap::new();
    mlt.increment(0x2000_0000);
    mlt.increment(0x2000_0000);
    mlt.increment(0x2000_0000);
    let num_witin = cb.cs.num_witin();
    let witness =
        ProgramTableCircuit::<4>::assign_instances(&config, num_witin, &mlt, &program).unwrap();
    assert_eq!(witness.len(), 2);
    assert_eq!(witness[0][config.mlt.id].as_u64(), 3);
    assert_eq!(witness[1][config.mlt.id].as_u64(), 0);
}
