//! The fixed program table: one instruction record per row of static data,
//! encoded into the lookup argument, with a multiplicity column counting how
//! often each instruction was fetched.

use vstd::prelude::*;

use crate::cs::{chal_eval, cs_extends, qualified, rom_tag, rom_tag_u64, CircuitBuilder, ROMType};
use crate::error::ZKVMError;
use crate::expr::{eval_node, Fixed, WitIn};
use crate::field::{e_add, e_mul, fneg, Ext, Fp, FIELD_MODULUS};
use crate::lkm::CountMap;
use crate::witness::{set_fixed_val, set_val};

verus! {

use vstd::arithmetic::div_mod::lemma_small_mod;
use vstd::string::StringExecFns;

/// The register index standing for "no destination register".
pub const RD_NULL: u32 = 32;

/// The byte distance between consecutive program counters.
pub const PC_STEP_SIZE: u32 = 4;

/// One decoded instruction, as the emulator exposes it: the opcode kind code
/// and the operand fields, with the immediate in its internal reading.
pub struct DecodedInstruction {
    pub kind: u32,
    pub rd_internal: u32,
    pub rs1_or_zero: u32,
    pub rs2_or_zero: u32,
    pub imm_internal: u32,
    pub imm_field_is_negative: bool,
}

/// A loaded program: its base address and its decoded instructions.
pub struct Program {
    pub base_address: u32,
    pub instructions: Vec<DecodedInstruction>,
}

/// The order of the fields in instruction records, common to the program
/// table and circuit fetches: pc, kind, rd, rs1, rs2, internal immediate.
pub struct InsnRecord<T>(pub Vec<T>);

impl<T> InsnRecord<T> {
    /// All six fields, in record order.
    pub fn as_slice(&self) -> (r: &[T])
        ensures
            r@ == self.0@,
    {
        self.0.as_slice()
    }

    /// The internal view of the immediate.
    pub fn imm_internal(&self) -> (r: &T)
        requires
            self.0@.len() == 6,
        ensures
            *r == self.0@[5],
    {
        &self.0[5]
    }
}

impl<T: Copy> InsnRecord<T> {
    /// The fields except the immediate, which needs its own field encoding.
    pub fn without_imm(&self) -> (r: Vec<T>)
        requires
            self.0@.len() == 6,
        ensures
            r@ == self.0@.subrange(0, 5),
    {
        let mut out: Vec<T> = Vec::new();
        let mut i: usize = 0;
        while i < 5
            invariant
                self.0@.len() == 6,
                i <= 5,
                out@ == self.0@.subrange(0, i as int),
            decreases 5 - i,
        {
            out.push(self.0[i]);
            proof {
                assert(out@ =~= self.0@.subrange(0, i as int + 1));
            }
            i = i + 1;
        }
        out
    }
}

impl InsnRecord<u32> {
    /// A record from explicit fields; a missing destination register is
    /// recorded as the null register slot.
    pub fn new(pc: u32, kind: u32, rd: Option<u32>, rs1: u32, rs2: u32, imm_internal: u32) -> (r:
        InsnRecord<u32>)
        ensures
            r.0@ == seq![
                pc,
                kind,
                (if rd is Some {
                    rd->0
                } else {
                    RD_NULL
                }),
                rs1,
                rs2,
                imm_internal,
            ],
    {
        let rd_val = match rd {
            Some(v) => v,
            None => RD_NULL,
        };
        let mut fields: Vec<u32> = Vec::new();
        fields.push(pc);
        fields.push(kind);
        fields.push(rd_val);
        fields.push(rs1);
        fields.push(rs2);
        fields.push(imm_internal);
        proof {
            assert(fields@ =~= seq![
                pc,
                kind,
                (if rd is Some {
                    rd->0
                } else {
                    RD_NULL
                }),
                rs1,
                rs2,
                imm_internal,
            ]);
        }
        InsnRecord(fields)
    }

    /// The record of one decoded instruction at a given program counter.
    pub fn from_decoded(pc: u32, insn: &DecodedInstruction) -> (r: InsnRecord<u32>)
        ensures
            r.0@ == seq![
                pc,
                insn.kind,
                insn.rd_internal,
                insn.rs1_or_zero,
                insn.rs2_or_zero,
                insn.imm_internal,
            ],
    {
        let mut fields: Vec<u32> = Vec::new();
        fields.push(pc);
        fields.push(insn.kind);
        fields.push(insn.rd_internal);
        fields.push(insn.rs1_or_zero);
        fields.push(insn.rs2_or_zero);
        fields.push(insn.imm_internal);
        proof {
            assert(fields@ =~= seq![
                pc,
                insn.kind,
                insn.rd_internal,
                insn.rs1_or_zero,
                insn.rs2_or_zero,
                insn.imm_internal,
            ]);
        }
        InsnRecord(fields)
    }

    /// The immediate as a field element: negative internal immediates are
    /// converted from two's complement to the field's negative residue.
    pub fn imm_internal_field(insn: &DecodedInstruction) -> (r: Fp)
        requires
            insn.imm_field_is_negative ==> insn.imm_internal > 0x8000_0000,
        ensures
            !insn.imm_field_is_negative ==> r@ == insn.imm_internal as nat,
            insn.imm_field_is_negative ==> r@ == fneg(
                (0x1_0000_0000 - insn.imm_internal as int) as nat,
            ),
    {
        if insn.imm_field_is_negative {
            let magnitude: u64 = 0x1_0000_0000u64 - insn.imm_internal as u64;
            proof {
                lemma_small_mod(magnitude as nat, FIELD_MODULUS as nat);
            }
            Fp::from_u64(magnitude).neg()
        } else {
            Fp::from_u32(insn.imm_internal)
        }
    }
}

/// The value of a fixed-column reference on one table row, as the evaluator
/// sees it.
pub open spec fn fix_at(f: Seq<nat>, i: int) -> (nat, nat) {
    if 0 <= i < f.len() {
        (f[i], 0nat)
    } else {
        (0nat, 0nat)
    }
}

/// What the program table's record expression evaluates to on a table row
/// with fixed columns `f`, for record columns starting at column `b`:
/// the instruction tag and the six record fields folded with rising powers
/// of the second challenge, plus the first challenge.
pub open spec fn prog_record_rlc(f: Seq<nat>, b: int, c0: (nat, nat), c1: (nat, nat)) -> (
    nat,
    nat,
) {
    let alpha = chal_eval(c0, 1);
    let t0 = e_add(e_mul((rom_tag(ROMType::Instruction), 0nat), chal_eval(c1, 0)), alpha);
    let t1 = e_add(e_mul(fix_at(f, b), chal_eval(c1, 1)), t0);
    let t2 = e_add(e_mul(fix_at(f, b + 1), chal_eval(c1, 2)), t1);
    let t3 = e_add(e_mul(fix_at(f, b + 2), chal_eval(c1, 3)), t2);
    let t4 = e_add(e_mul(fix_at(f, b + 3), chal_eval(c1, 4)), t3);
    let t5 = e_add(e_mul(fix_at(f, b + 4), chal_eval(c1, 5)), t4);
    e_add(e_mul(fix_at(f, b + 5), chal_eval(c1, 6)), t5)
}

/// The columns of the program table: six fixed record columns and the fetch
/// multiplicity column.
pub struct ProgramTableConfig {
    pub record: InsnRecord<Fixed>,
    pub mlt: WitIn,
}

impl ProgramTableConfig {
    /// The record columns fit `nf` fixed columns.
    pub open spec fn fixed_wf(self, nf: nat) -> bool {
        &&& self.record.0@.len() == 6
        &&& forall|k: int|
            0 <= k < 6 ==> (#[trigger] self.record.0@[k]).id == self.record.0@[0].id + k
        &&& self.record.0@[0].id + 6 <= nf
    }

    /// The table's columns fit `nf` fixed and `nw` witness columns.
    pub open spec fn wf(self, nf: nat, nw: nat) -> bool {
        &&& self.fixed_wf(nf)
        &&& self.mlt.id < nw
    }
}

/// The program table circuit, sized to a fixed number of table rows.
pub struct ProgramTableCircuit<const PROGRAM_SIZE: usize> {}

impl<const PROGRAM_SIZE: usize> ProgramTableCircuit<PROGRAM_SIZE> {
    /// The table's diagnostic name.
    pub fn name() -> (r: String)
        ensures
            r@ == "PROGRAM"@,
    {
        String::from_str("PROGRAM")
    }

    /// Registers the six fixed record columns, the multiplicity column, and
    /// the table side of the instruction lookup argument: every record row
    /// folded into one field element with the transcript challenges.
    pub fn construct_circuit(cb: &mut CircuitBuilder) -> (r: Result<
        ProgramTableConfig,
        ZKVMError,
    >)
        ensures
            r is Ok,
            r matches Ok(cfg) ==> {
                &&& cs_extends(final(cb).cs, old(cb).cs)
                &&& final(cb).cs.fixed_names@.len() == old(cb).cs.fixed_names@.len() + 6
                &&& final(cb).cs.witin_names@.len() == old(cb).cs.witin_names@.len() + 1
                &&& cfg.record.0@[0].id == old(cb).cs.fixed_names@.len()
                &&& cfg.mlt.id == old(cb).cs.witin_names@.len()
                &&& cfg.wf(
                    final(cb).cs.fixed_names@.len() as nat,
                    final(cb).cs.witin_names@.len() as nat,
                )
                &&& final(cb).cs.zero_constraints@ == old(cb).cs.zero_constraints@
                &&& final(cb).cs.eq_constraints@ == old(cb).cs.eq_constraints@
                &&& final(cb).cs.lk_expressions@ == old(cb).cs.lk_expressions@
                &&& final(cb).cs.lk_tables@.len() == old(cb).cs.lk_tables@.len() + 1
                &&& final(cb).cs.lk_tables@.last().len == PROGRAM_SIZE
                &&& final(cb).cs.lk_tables@.last().name@ == qualified(
                    old(cb).cs.ns@,
                    "prog table"@,
                )
                &&& forall|w: Seq<nat>, f: Seq<nat>, ch: Seq<(nat, nat)>|
                    ch.len() >= 2 ==> #[trigger] eval_node(
                        final(cb).cs.nodes@,
                        final(cb).cs.lk_tables@.last().record as int,
                        w,
                        f,
                        ch,
                    ) == prog_record_rlc(
                        f,
                        old(cb).cs.fixed_names@.len() as int,
                        ch[0],
                        ch[1],
                    )
            },
    {
        let ghost s0 = cb.cs;
        let f_pc = cb.create_fixed("pc");
        let f_kind = cb.create_fixed("kind");
        let f_rd = cb.create_fixed("rd");
        let f_rs1 = cb.create_fixed("rs1");
        let f_rs2 = cb.create_fixed("rs2");
        let f_imm = cb.create_fixed("imm_internal");
        let mlt = cb.create_witin("mlt");

        // The record of one row, folded with powers of the second challenge.
        let tag = cb.expr_constant(Fp::from_u64(rom_tag_u64(ROMType::Instruction)));
        let e_pc = cb.expr_fixed(f_pc);
        let e_kind = cb.expr_fixed(f_kind);
        let e_rd = cb.expr_fixed(f_rd);
        let e_rs1 = cb.expr_fixed(f_rs1);
        let e_rs2 = cb.expr_fixed(f_rs2);
        let e_imm = cb.expr_fixed(f_imm);
        let alpha = cb.expr_challenge(0, 1, Ext::one(), Ext::zero());
        let beta0 = cb.expr_challenge(1, 0, Ext::one(), Ext::zero());
        let beta1 = cb.expr_challenge(1, 1, Ext::one(), Ext::zero());
        let beta2 = cb.expr_challenge(1, 2, Ext::one(), Ext::zero());
        let beta3 = cb.expr_challenge(1, 3, Ext::one(), Ext::zero());
        let beta4 = cb.expr_challenge(1, 4, Ext::one(), Ext::zero());
        let beta5 = cb.expr_challenge(1, 5, Ext::one(), Ext::zero());
        let beta6 = cb.expr_challenge(1, 6, Ext::one(), Ext::zero());
        let ghost s1 = cb.cs;
        let t0 = cb.expr_scaled_sum(tag, beta0, alpha);
        let t1 = cb.expr_scaled_sum(e_pc, beta1, t0);
        let t2 = cb.expr_scaled_sum(e_kind, beta2, t1);
        let t3 = cb.expr_scaled_sum(e_rd, beta3, t2);
        let t4 = cb.expr_scaled_sum(e_rs1, beta4, t3);
        let t5 = cb.expr_scaled_sum(e_rs2, beta5, t4);
        let acc = cb.expr_scaled_sum(e_imm, beta6, t5);
        let mlt_expr = cb.expr_wit(mlt);
        let res = cb.lk_table_record("prog table", PROGRAM_SIZE, acc, mlt_expr);
        let record = InsnRecord(vec![f_pc, f_kind, f_rd, f_rs1, f_rs2, f_imm]);
        let cfg = ProgramTableConfig { record, mlt };
        proof {
            let b = s0.fixed_names@.len() as int;
            assert(forall|j: int| 0 <= j < s1.nodes@.len() ==> s1.nodes@[j] == cb.cs.nodes@[j]);
            assert(cb.cs.nodes@[tag as int] matches crate::expr::ExprNode::Constant(c) && c@
                == rom_tag(ROMType::Instruction)) by {
                lemma_small_mod(rom_tag(ROMType::Instruction), FIELD_MODULUS as nat);
            }
            assert(cb.cs.lk_tables@.last().record == acc);
            assert forall|w: Seq<nat>, f: Seq<nat>, ch: Seq<(nat, nat)>| ch.len() >= 2
                implies #[trigger] eval_node(cb.cs.nodes@, acc as int, w, f, ch)
                == prog_record_rlc(f, b, ch[0], ch[1]) by {
                assert(eval_node(cb.cs.nodes@, tag as int, w, f, ch) == (
                    rom_tag(ROMType::Instruction),
                    0nat,
                ));
                assert(eval_node(cb.cs.nodes@, e_pc as int, w, f, ch) == fix_at(f, b));
                assert(eval_node(cb.cs.nodes@, e_kind as int, w, f, ch) == fix_at(f, b + 1));
                assert(eval_node(cb.cs.nodes@, e_rd as int, w, f, ch) == fix_at(f, b + 2));
                assert(eval_node(cb.cs.nodes@, e_rs1 as int, w, f, ch) == fix_at(f, b + 3));
                assert(eval_node(cb.cs.nodes@, e_rs2 as int, w, f, ch) == fix_at(f, b + 4));
                assert(eval_node(cb.cs.nodes@, e_imm as int, w, f, ch) == fix_at(f, b + 5));
                assert(eval_node(cb.cs.nodes@, alpha as int, w, f, ch) == chal_eval(ch[0], 1));
                assert(eval_node(cb.cs.nodes@, beta0 as int, w, f, ch) == chal_eval(ch[1], 0));
                assert(eval_node(cb.cs.nodes@, beta1 as int, w, f, ch) == chal_eval(ch[1], 1));
                assert(eval_node(cb.cs.nodes@, beta2 as int, w, f, ch) == chal_eval(ch[1], 2));
                assert(eval_node(cb.cs.nodes@, beta3 as int, w, f, ch) == chal_eval(ch[1], 3));
                assert(eval_node(cb.cs.nodes@, beta4 as int, w, f, ch) == chal_eval(ch[1], 4));
                assert(eval_node(cb.cs.nodes@, beta5 as int, w, f, ch) == chal_eval(ch[1], 5));
                assert(eval_node(cb.cs.nodes@, beta6 as int, w, f, ch) == chal_eval(ch[1], 6));
                assert(eval_node(cb.cs.nodes@, t0 as int, w, f, ch) == e_add(
                    e_mul((rom_tag(ROMType::Instruction), 0nat), chal_eval(ch[1], 0)),
                    chal_eval(ch[0], 1),
                ));
                assert(eval_node(cb.cs.nodes@, t1 as int, w, f, ch) == e_add(
                    e_mul(fix_at(f, b), chal_eval(ch[1], 1)),
                    eval_node(cb.cs.nodes@, t0 as int, w, f, ch),
                ));
                assert(eval_node(cb.cs.nodes@, t2 as int, w, f, ch) == e_add(
                    e_mul(fix_at(f, b + 1), chal_eval(ch[1], 2)),
                    eval_node(cb.cs.nodes@, t1 as int, w, f, ch),
                ));
                assert(eval_node(cb.cs.nodes@, t3 as int, w, f, ch) == e_add(
                    e_mul(fix_at(f, b + 2), chal_eval(ch[1], 3)),
                    eval_node(cb.cs.nodes@, t2 as int, w, f, ch),
                ));
                assert(eval_node(cb.cs.nodes@, t4 as int, w, f, ch) == e_add(
                    e_mul(fix_at(f, b + 3), chal_eval(ch[1], 4)),
                    eval_node(cb.cs.nodes@, t3 as int, w, f, ch),
                ));
                assert(eval_node(cb.cs.nodes@, t5 as int, w, f, ch) == e_add(
                    e_mul(fix_at(f, b + 4), chal_eval(ch[1], 5)),
                    eval_node(cb.cs.nodes@, t4 as int, w, f, ch),
                ));
            }
        }
        match res {
            Ok(_) => Ok(cfg),
            Err(e) => Err(e),
        }
    }

    /// Generates the fixed columns of the whole table: one row per
    /// instruction, zero rows as padding up to the table size.
    pub fn generate_fixed_traces(
        config: &ProgramTableConfig,
        num_fixed: usize,
        program: &Program,
    ) -> (r: Vec<Vec<Fp>>)
        requires
            config.fixed_wf(num_fixed as nat),
            program.instructions@.len() <= PROGRAM_SIZE,
            program.base_address + PC_STEP_SIZE * program.instructions@.len() <= u32::MAX,
            forall|i: int|
                0 <= i < program.instructions@.len() ==> ((#[trigger] program.instructions@[i]).imm_field_is_negative
                    ==> program.instructions@[i].imm_internal > 0x8000_0000),
        ensures
            r@.len() == PROGRAM_SIZE,
            forall|i: int| 0 <= i < r@.len() ==> (#[trigger] r@[i])@.len() == num_fixed,
            forall|i: int, k: int|
                program.instructions@.len() <= i < r@.len() && 0 <= k < num_fixed
                    ==> (#[trigger] (r@[i])@[k])@ == 0,
            forall|i: int|
                0 <= i < program.instructions@.len() ==> {
                    let row = (#[trigger] r@[i])@;
                    let insn = program.instructions@[i];
                    &&& (row[config.record.0@[0].id as int])@ == program.base_address
                        + PC_STEP_SIZE * i
                    &&& (row[config.record.0@[1].id as int])@ == insn.kind as nat
                    &&& (row[config.record.0@[2].id as int])@ == insn.rd_internal as nat
                    &&& (row[config.record.0@[3].id as int])@ == insn.rs1_or_zero as nat
                    &&& (row[config.record.0@[4].id as int])@ == insn.rs2_or_zero as nat
                    &&& (row[config.record.0@[5].id as int])@ == (if insn.imm_field_is_negative {
                        fneg((0x1_0000_0000 - insn.imm_internal as int) as nat)
                    } else {
                        insn.imm_internal as nat
                    })
                },
    {
        let mut rows: Vec<Vec<Fp>> = Vec::new();
        let mut i: usize = 0;
        while i < PROGRAM_SIZE
            invariant
                config.fixed_wf(num_fixed as nat),
                program.instructions@.len() <= PROGRAM_SIZE,
                program.base_address + PC_STEP_SIZE * program.instructions@.len() <= u32::MAX,
                forall|k: int|
                    0 <= k < program.instructions@.len() ==> ((#[trigger] program.instructions@[k]).imm_field_is_negative
                        ==> program.instructions@[k].imm_internal > 0x8000_0000),
                i <= PROGRAM_SIZE,
                rows@.len() == i,
                forall|k: int| 0 <= k < rows@.len() ==> (#[trigger] rows@[k])@.len() == num_fixed,
                forall|k: int, k2: int|
                    program.instructions@.len() <= k < rows@.len() && 0 <= k2 < num_fixed
                        ==> (#[trigger] (rows@[k])@[k2])@ == 0,
                forall|k: int|
                    0 <= k < rows@.len() && k < program.instructions@.len() ==> {
                        let row = (#[trigger] rows@[k])@;
                        let insn = program.instructions@[k];
                        &&& (row[config.record.0@[0].id as int])@ == program.base_address
                            + PC_STEP_SIZE * k
                        &&& (row[config.record.0@[1].id as int])@ == insn.kind as nat
                        &&& (row[config.record.0@[2].id as int])@ == insn.rd_internal as nat
                        &&& (row[config.record.0@[3].id as int])@ == insn.rs1_or_zero as nat
                        &&& (row[config.record.0@[4].id as int])@ == insn.rs2_or_zero as nat
                        &&& (row[config.record.0@[5].id as int])@ == (
                        if insn.imm_field_is_negative {
                            fneg((0x1_0000_0000 - insn.imm_internal as int) as nat)
                        } else {
                            insn.imm_internal as nat
                        })
                    },
            decreases PROGRAM_SIZE - i,
        {
            let mut row: Vec<Fp> = Vec::new();
            let mut k: usize = 0;
            while k < num_fixed
                invariant
                    k <= num_fixed,
                    row@.len() == k,
                    forall|k2: int| 0 <= k2 < k ==> (#[trigger] (row@[k2])@) == 0,
                decreases num_fixed - k,
            {
                row.push(Fp::zero());
                k = k + 1;
            }
            if i < program.instructions.len() {
                let insn = &program.instructions[i];
                let pc: u32 = program.base_address + PC_STEP_SIZE * (i as u32);
                let values = InsnRecord::from_decoded(pc, insn);
                set_fixed_val(&mut row, config.record.0[0], Fp::from_u32(values.0[0]));
                set_fixed_val(&mut row, config.record.0[1], Fp::from_u32(values.0[1]));
                set_fixed_val(&mut row, config.record.0[2], Fp::from_u32(values.0[2]));
                set_fixed_val(&mut row, config.record.0[3], Fp::from_u32(values.0[3]));
                set_fixed_val(&mut row, config.record.0[4], Fp::from_u32(values.0[4]));
                set_fixed_val(
                    &mut row,
                    config.record.0[5],
                    InsnRecord::imm_internal_field(insn),
                );
            }
            rows.push(row);
            i = i + 1;
        }
        rows
    }

    /// Builds the witness rows of the table for one run: the multiplicity
    /// column of row `i` holds how often the instruction at `base + 4·i`
    /// was fetched.
    pub fn assign_instances(
        config: &ProgramTableConfig,
        num_witin: usize,
        multiplicity: &CountMap,
        program: &Program,
    ) -> (r: Result<Vec<Vec<Fp>>, ZKVMError>)
        requires
            config.mlt.id < num_witin,
            program.base_address + PC_STEP_SIZE * program.instructions@.len() <= u32::MAX,
        ensures
            r is Ok,
            r matches Ok(rows) ==> {
                &&& rows@.len() == program.instructions@.len()
                &&& forall|i: int|
                    0 <= i < rows@.len() ==> (#[trigger] rows@[i])@.len() == num_witin
                &&& forall|i: int|
                    0 <= i < rows@.len() ==> ((#[trigger] rows@[i])@[config.mlt.id as int])@
                        == multiplicity.count(
                        (program.base_address + PC_STEP_SIZE * i) as u64,
                    ) % (FIELD_MODULUS as nat)
            },
    {
        let mut rows: Vec<Vec<Fp>> = Vec::new();
        let mut i: usize = 0;
        while i < program.instructions.len()
            invariant
                config.mlt.id < num_witin,
                program.base_address + PC_STEP_SIZE * program.instructions@.len() <= u32::MAX,
                i <= program.instructions@.len(),
                rows@.len() == i,
                forall|k: int| 0 <= k < rows@.len() ==> (#[trigger] rows@[k])@.len() == num_witin,
                forall|k: int|
                    0 <= k < rows@.len() ==> ((#[trigger] rows@[k])@[config.mlt.id as int])@
                        == multiplicity.count(
                        (program.base_address + PC_STEP_SIZE * k) as u64,
                    ) % (FIELD_MODULUS as nat),
            decreases program.instructions@.len() - i,
        {
            let mut row: Vec<Fp> = Vec::new();
            let mut k: usize = 0;
            while k < num_witin
                invariant
                    k <= num_witin,
                    row@.len() == k,
                decreases num_witin - k,
            {
                row.push(Fp::zero());
                k = k + 1;
            }
            let pc: u32 = program.base_address + PC_STEP_SIZE * (i as u32);
            let count = multiplicity.get(pc as u64);
            set_val(&mut row, config.mlt, Fp::from_u64(count));
            rows.push(row);
            i = i + 1;
        }
        Ok(rows)
    }
}

} // verus!
