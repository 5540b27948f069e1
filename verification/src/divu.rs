//! The unsigned-division instruction circuit: operand words, the multiply-add
//! identity `divisor·outcome + remainder = dividend` with carry witnesses,
//! the division-by-zero convention `outcome = 2^32 − 1`, and the guard that
//! exactly one of "divisor is zero" and "remainder < divisor" holds.

use vstd::prelude::*;

use crate::cs::{cs_extends, CircuitBuilder};
use crate::error::ZKVMError;
use crate::expr::WitIn;
use crate::field::Fp;
use crate::cs::ConstraintSystem;
use crate::expr::{eval_node, ExprNode};
use crate::field::{e_add, e_mul, e_sub};
use crate::is_lt::{limbs_eval, wit_at, IsLtConfig};
use crate::is_zero::IsZeroConfig;
use crate::lkm::LkMultiplicity;
use crate::uint::{mul_add_limbs, UInt, Value, UINT_LIMBS};
use crate::witness::set_val;

verus! {

use vstd::arithmetic::power2::pow2;
use vstd::string::StringExecFns;

/// The instruction kinds this library's circuits cover.
#[derive(Clone, Copy, Debug, PartialEq, Eq, Structural)]
pub enum InsnKind {
    Divu,
}

/// One opcode's identity: which instruction an `ArithInstruction` compiles.
pub trait RIVInstruction {
    fn inst_kind() -> InsnKind;
}

/// The unsigned-division opcode.
pub struct DivUOp;

impl RIVInstruction for DivUOp {
    fn inst_kind() -> (r: InsnKind)
        ensures
            r == InsnKind::Divu,
    {
        InsnKind::Divu
    }
}

/// One retired instruction's concrete execution data, supplied by the
/// emulator: both source operand values and the destination value written.
pub struct StepRecord {
    pub rs1: u32,
    pub rs2: u32,
    pub rd_after: u32,
}

impl StepRecord {
    pub fn new_r_instruction(rs1: u32, rs2: u32, rd_after: u32) -> (r: StepRecord)
        ensures
            r.rs1 == rs1,
            r.rs2 == rs2,
            r.rd_after == rd_after,
    {
        StepRecord { rs1, rs2, rd_after }
    }
}

/// The columns and sub-gadgets of one division circuit.
pub struct ArithConfig {
    pub dividend: UInt,
    pub divisor: UInt,
    pub outcome: UInt,
    pub remainder: UInt,
    pub carry0: WitIn,
    pub carry1_lo: WitIn,
    pub carry1_hi: WitIn,
    pub is_zero: IsZeroConfig,
    pub remainder_lt: IsLtConfig,
}

impl ArithConfig {
    /// The circuit's columns occupy sixteen consecutive slots and fit a row
    /// of `n` columns.
    pub open spec fn wf(self, n: nat) -> bool {
        let b = self.divisor.limbs@[0].id as int;
        &&& self.divisor.limbs@.len() == 2
        &&& self.divisor.limbs@[0].id == b
        &&& self.divisor.limbs@[1].id == b + 1
        &&& self.outcome.limbs@.len() == 2
        &&& self.outcome.limbs@[0].id == b + 2
        &&& self.outcome.limbs@[1].id == b + 3
        &&& self.remainder.limbs@.len() == 2
        &&& self.remainder.limbs@[0].id == b + 4
        &&& self.remainder.limbs@[1].id == b + 5
        &&& self.dividend.limbs@.len() == 2
        &&& self.dividend.limbs@[0].id == b + 6
        &&& self.dividend.limbs@[1].id == b + 7
        &&& self.carry0.id == b + 8
        &&& self.carry1_lo.id == b + 9
        &&& self.carry1_hi.id == b + 10
        &&& self.is_zero.is_zero.id == b + 11
        &&& self.is_zero.inverse.id == b + 12
        &&& self.remainder_lt.is_lt.id == b + 13
        &&& self.remainder_lt.config.diff@.len() == 2
        &&& self.remainder_lt.config.max_num_u16_limbs == 2
        &&& self.remainder_lt.config.diff@[0].id == b + 14
        &&& self.remainder_lt.config.diff@[1].id == b + 15
        &&& b + 16 <= n
    }
}

/// What the division circuit's constraints say, on any one row valuation
/// `w` (with fixed columns `f` and challenges `ch`), for a circuit whose
/// sixteen columns start at `pre.witin_names@.len()`: the two multiply-add
/// carry equations over the operand limbs, the zero-test of the divisor, the
/// conditional forcing the outcome to all-ones on a zero divisor, the
/// boolean checks of the carry and flag columns, the core less-than identity
/// on remainder and divisor, and the guard that the two flags sum to one.
pub open spec fn divu_row_constraints(
    pre: ConstraintSystem,
    post: ConstraintSystem,
    w: Seq<nat>,
    f: Seq<nat>,
    ch: Seq<(nat, nat)>,
) -> bool {
    let b = pre.witin_names@.len() as int;
    let oz = pre.zero_constraints@.len() as int;
    let oe = pre.eq_constraints@.len() as int;
    let dv = limbs_eval(w, b, 2);
    let ov = limbs_eval(w, b + 2, 2);
    let rv = limbs_eval(w, b + 4, 2);
    // carry_1_hi is boolean
    &&& eval_node(post.nodes@, post.zero_constraints@[oz + 0].expr as int, w, f, ch) == e_mul(
        wit_at(w, b + 10),
        e_sub(wit_at(w, b + 10), (1nat, 0nat)),
    )
    // is_zero·divisor = 0
    &&& eval_node(post.nodes@, post.zero_constraints@[oz + 1].expr as int, w, f, ch) == e_mul(
        wit_at(w, b + 11),
        dv,
    )
    // divisor·inverse = 1 − is_zero
    &&& eval_node(post.nodes@, post.zero_constraints@[oz + 2].expr as int, w, f, ch) == e_sub(
        e_mul(dv, wit_at(w, b + 12)),
        e_sub((1nat, 0nat), wit_at(w, b + 11)),
    )
    // is_zero ⇒ outcome = 2^32 − 1
    &&& eval_node(post.nodes@, post.zero_constraints@[oz + 3].expr as int, w, f, ch) == e_sub(
        e_add(e_mul(wit_at(w, b + 11), e_sub((0xffff_ffffnat, 0nat), ov)), ov),
        ov,
    )
    // remainder_lt flag is boolean
    &&& eval_node(post.nodes@, post.zero_constraints@[oz + 4].expr as int, w, f, ch) == e_mul(
        wit_at(w, b + 13),
        e_sub(wit_at(w, b + 13), (1nat, 0nat)),
    )
    // low multiply-add limb: d0·o0 + r0 = v0 + c0·2^16
    &&& eval_node(post.nodes@, post.eq_constraints@[oe + 0].lhs as int, w, f, ch) == e_add(
        e_mul(wit_at(w, b), wit_at(w, b + 2)),
        wit_at(w, b + 4),
    )
    &&& eval_node(post.nodes@, post.eq_constraints@[oe + 0].rhs as int, w, f, ch) == e_add(
        wit_at(w, b + 6),
        e_add(e_mul(wit_at(w, b + 8), (0x10000nat, 0nat)), (0nat, 0nat)),
    )
    // high multiply-add limb: d0·o1 + d1·o0 + r1 + c0 = v1 + c1·2^16
    &&& eval_node(post.nodes@, post.eq_constraints@[oe + 1].lhs as int, w, f, ch) == e_add(
        e_add(
            e_add(
                e_mul(wit_at(w, b), wit_at(w, b + 3)),
                e_mul(wit_at(w, b + 1), wit_at(w, b + 2)),
            ),
            wit_at(w, b + 5),
        ),
        wit_at(w, b + 8),
    )
    &&& eval_node(post.nodes@, post.eq_constraints@[oe + 1].rhs as int, w, f, ch) == e_add(
        wit_at(w, b + 7),
        e_add(
            e_mul(
                e_add(e_mul(wit_at(w, b + 10), (0x10000nat, 0nat)), wit_at(w, b + 9)),
                (0x10000nat, 0nat),
            ),
            (0nat, 0nat),
        ),
    )
    // core less-than identity: remainder − divisor = Σ diff − is_lt·2^32
    &&& eval_node(post.nodes@, post.eq_constraints@[oe + 2].lhs as int, w, f, ch) == e_sub(rv, dv)
    &&& eval_node(post.nodes@, post.eq_constraints@[oe + 2].rhs as int, w, f, ch) == e_sub(
        limbs_eval(w, b + 14, 2),
        e_mul(wit_at(w, b + 13), (pow2(32), 0nat)),
    )
    // exactly one of the flags: is_zero + remainder_lt = 1
    &&& eval_node(post.nodes@, post.eq_constraints@[oe + 3].lhs as int, w, f, ch) == e_add(
        wit_at(w, b + 11),
        wit_at(w, b + 13),
    )
    &&& eval_node(post.nodes@, post.eq_constraints@[oe + 3].rhs as int, w, f, ch) == (1nat, 0nat)
}

/// Every value the division assignment reports to the 16-bit multiplicity
/// table, in reporting order: the outcome and remainder limbs, the derived
/// dividend limbs, the two multiply-add carries, and the comparison gadget's
/// borrow limbs.
pub open spec fn divu_reported_u16(step: StepRecord) -> Seq<u64> {
    let rs2 = step.rs2 as nat;
    let rd = step.rd_after as nat;
    let rem = if step.rs2 == 0 {
        0nat
    } else {
        step.rs1 as nat % step.rs2 as nat
    };
    let d0 = rs2 % 0x10000;
    let d1 = rs2 / 0x10000;
    let o0 = rd % 0x10000;
    let o1 = rd / 0x10000;
    let r0 = rem % 0x10000;
    let r1 = rem / 0x10000;
    let t0 = d0 * o0 + r0;
    let c0 = t0 / 0x10000;
    let t1 = d0 * o1 + d1 * o0 + r1 + c0;
    crate::uint::word_limbs(step.rd_after) + crate::uint::word_limbs(rem as u32) + seq![
        (t0 % 0x10000) as u64,
        (t1 % 0x10000) as u64,
        c0 as u64,
        ((t1 / 0x10000) % 0x10000) as u64,
    ] + crate::is_lt::limb_seq(crate::is_lt::diff_value(2, rem, rs2), 2)
}

/// One honestly assigned row of the division circuit: the operand columns
/// hold the step's values limb-wise, the dividend columns hold the wrapped
/// multiply-add result, and both gadget flags are correct.
pub open spec fn row_assigned(config: ArithConfig, row: Seq<Fp>, step: StepRecord) -> bool {
    let rs2 = step.rs2 as nat;
    let rd = step.rd_after as nat;
    let rem = if step.rs2 == 0 {
        0nat
    } else {
        step.rs1 as nat % step.rs2 as nat
    };
    &&& (row[config.divisor.limbs@[0].id as int])@ == rs2 % 0x10000
    &&& (row[config.divisor.limbs@[1].id as int])@ == rs2 / 0x10000
    &&& (row[config.outcome.limbs@[0].id as int])@ == rd % 0x10000
    &&& (row[config.outcome.limbs@[1].id as int])@ == rd / 0x10000
    &&& (row[config.remainder.limbs@[0].id as int])@ == rem % 0x10000
    &&& (row[config.remainder.limbs@[1].id as int])@ == rem / 0x10000
    &&& (row[config.dividend.limbs@[0].id as int])@ + 0x10000 * (row[config.dividend.limbs@[1].id
        as int])@ == (rs2 * rd + rem) % 0x1_0000_0000
    &&& (row[config.is_zero.is_zero.id as int])@ == (if step.rs2 == 0 {
        1nat
    } else {
        0nat
    })
    &&& (row[config.is_zero.inverse.id as int])@ == crate::field::inv_value(rs2)
    &&& (row[config.remainder_lt.is_lt.id as int])@ == (if rem < rs2 {
        1nat
    } else {
        0nat
    })
}

/// The multiply-add and guard expressions of the division circuit evaluate
/// to the stated limb formulas, on every row: follows from the exact node
/// structure the builder recorded for them.
#[verifier::rlimit(100)]
proof fn lemma_divu_built_evals(
    fin: ConstraintSystem,
    d0e: usize,
    d1e: usize,
    o0e: usize,
    o1e: usize,
    r0e: usize,
    r1e: usize,
    v0e: usize,
    v1e: usize,
    c0e: usize,
    c1le: usize,
    c1he: usize,
    ize: usize,
    lte: usize,
    shift16: usize,
    zero0: usize,
    zero1: usize,
    p00: usize,
    low_lhs: usize,
    carry0_term: usize,
    low_rhs: usize,
    p01: usize,
    p10: usize,
    cross: usize,
    with_r1: usize,
    high_lhs: usize,
    carry1: usize,
    carry1_term: usize,
    high_rhs: usize,
    flags: usize,
    one: usize,
    id_d0: usize,
    id_d1: usize,
    id_o0: usize,
    id_o1: usize,
    id_r0: usize,
    id_r1: usize,
    id_v0: usize,
    id_v1: usize,
    id_c0: usize,
    id_c1l: usize,
    id_c1h: usize,
    id_iz: usize,
    id_lt: usize,
)
    requires
        one < fin.nodes@.len(),
        flags < one,
        high_rhs < flags,
        carry1_term < high_rhs,
        carry1 < carry1_term,
        high_lhs < carry1,
        with_r1 < high_lhs,
        cross < with_r1,
        p10 < cross,
        p01 < p10,
        low_rhs < p01,
        carry0_term < low_rhs,
        zero0 < carry0_term,
        shift16 < zero0,
        low_lhs < shift16,
        p00 < low_lhs,
        d0e < p00,
        d1e < p00,
        o0e < p00,
        o1e < p00,
        r0e < p00,
        r1e < p00,
        v0e < p00,
        v1e < p00,
        c0e < p00,
        c1le < p00,
        c1he < p00,
        carry1 < zero1,
        zero1 < carry1_term,
        ize < flags,
        lte < flags,
        fin.nodes@[d0e as int] == ExprNode::Wit(id_d0),
        fin.nodes@[d1e as int] == ExprNode::Wit(id_d1),
        fin.nodes@[o0e as int] == ExprNode::Wit(id_o0),
        fin.nodes@[o1e as int] == ExprNode::Wit(id_o1),
        fin.nodes@[r0e as int] == ExprNode::Wit(id_r0),
        fin.nodes@[r1e as int] == ExprNode::Wit(id_r1),
        fin.nodes@[v0e as int] == ExprNode::Wit(id_v0),
        fin.nodes@[v1e as int] == ExprNode::Wit(id_v1),
        fin.nodes@[c0e as int] == ExprNode::Wit(id_c0),
        fin.nodes@[c1le as int] == ExprNode::Wit(id_c1l),
        fin.nodes@[c1he as int] == ExprNode::Wit(id_c1h),
        fin.nodes@[ize as int] == ExprNode::Wit(id_iz),
        fin.nodes@[lte as int] == ExprNode::Wit(id_lt),
        fin.nodes@[shift16 as int] matches ExprNode::Constant(c) && c@ == 0x10000nat,
        fin.nodes@[zero0 as int] matches ExprNode::Constant(c) && c@ == 0nat,
        fin.nodes@[zero1 as int] matches ExprNode::Constant(c) && c@ == 0nat,
        fin.nodes@[one as int] matches ExprNode::Constant(c) && c@ == 1nat,
        fin.nodes@[p00 as int] == ExprNode::Product(d0e, o0e),
        fin.nodes@[low_lhs as int] == ExprNode::Sum(p00, r0e),
        fin.nodes@[carry0_term as int] == ExprNode::ScaledSum(c0e, shift16, zero0),
        fin.nodes@[low_rhs as int] == ExprNode::Sum(v0e, carry0_term),
        fin.nodes@[p01 as int] == ExprNode::Product(d0e, o1e),
        fin.nodes@[p10 as int] == ExprNode::Product(d1e, o0e),
        fin.nodes@[cross as int] == ExprNode::Sum(p01, p10),
        fin.nodes@[with_r1 as int] == ExprNode::Sum(cross, r1e),
        fin.nodes@[high_lhs as int] == ExprNode::Sum(with_r1, c0e),
        fin.nodes@[carry1 as int] == ExprNode::ScaledSum(c1he, shift16, c1le),
        fin.nodes@[carry1_term as int] == ExprNode::ScaledSum(carry1, shift16, zero1),
        fin.nodes@[high_rhs as int] == ExprNode::Sum(v1e, carry1_term),
        fin.nodes@[flags as int] == ExprNode::Sum(ize, lte),
    ensures
        forall|w: Seq<nat>, f: Seq<nat>, ch: Seq<(nat, nat)>|
            {
                &&& #[trigger] eval_node(fin.nodes@, low_lhs as int, w, f, ch) == e_add(
                    e_mul(wit_at(w, id_d0 as int), wit_at(w, id_o0 as int)),
                    wit_at(w, id_r0 as int),
                )
                &&& eval_node(fin.nodes@, low_rhs as int, w, f, ch) == e_add(
                    wit_at(w, id_v0 as int),
                    e_add(e_mul(wit_at(w, id_c0 as int), (0x10000nat, 0nat)), (0nat, 0nat)),
                )
                &&& eval_node(fin.nodes@, high_lhs as int, w, f, ch) == e_add(
                    e_add(
                        e_add(
                            e_mul(wit_at(w, id_d0 as int), wit_at(w, id_o1 as int)),
                            e_mul(wit_at(w, id_d1 as int), wit_at(w, id_o0 as int)),
                        ),
                        wit_at(w, id_r1 as int),
                    ),
                    wit_at(w, id_c0 as int),
                )
                &&& eval_node(fin.nodes@, high_rhs as int, w, f, ch) == e_add(
                    wit_at(w, id_v1 as int),
                    e_add(
                        e_mul(
                            e_add(
                                e_mul(wit_at(w, id_c1h as int), (0x10000nat, 0nat)),
                                wit_at(w, id_c1l as int),
                            ),
                            (0x10000nat, 0nat),
                        ),
                        (0nat, 0nat),
                    ),
                )
                &&& eval_node(fin.nodes@, flags as int, w, f, ch) == e_add(
                    wit_at(w, id_iz as int),
                    wit_at(w, id_lt as int),
                )
                &&& eval_node(fin.nodes@, one as int, w, f, ch) == (1nat, 0nat)
            },
{
    assert forall|w: Seq<nat>, f: Seq<nat>, ch: Seq<(nat, nat)>| {
        &&& #[trigger] eval_node(fin.nodes@, low_lhs as int, w, f, ch) == e_add(
            e_mul(wit_at(w, id_d0 as int), wit_at(w, id_o0 as int)),
            wit_at(w, id_r0 as int),
        )
        &&& eval_node(fin.nodes@, low_rhs as int, w, f, ch) == e_add(
            wit_at(w, id_v0 as int),
            e_add(e_mul(wit_at(w, id_c0 as int), (0x10000nat, 0nat)), (0nat, 0nat)),
        )
        &&& eval_node(fin.nodes@, high_lhs as int, w, f, ch) == e_add(
            e_add(
                e_add(
                    e_mul(wit_at(w, id_d0 as int), wit_at(w, id_o1 as int)),
                    e_mul(wit_at(w, id_d1 as int), wit_at(w, id_o0 as int)),
                ),
                wit_at(w, id_r1 as int),
            ),
            wit_at(w, id_c0 as int),
        )
        &&& eval_node(fin.nodes@, high_rhs as int, w, f, ch) == e_add(
            wit_at(w, id_v1 as int),
            e_add(
                e_mul(
                    e_add(
                        e_mul(wit_at(w, id_c1h as int), (0x10000nat, 0nat)),
                        wit_at(w, id_c1l as int),
                    ),
                    (0x10000nat, 0nat),
                ),
                (0nat, 0nat),
            ),
        )
        &&& eval_node(fin.nodes@, flags as int, w, f, ch) == e_add(
            wit_at(w, id_iz as int),
            wit_at(w, id_lt as int),
        )
        &&& eval_node(fin.nodes@, one as int, w, f, ch) == (1nat, 0nat)
    } by {
        assert(eval_node(fin.nodes@, d0e as int, w, f, ch) == wit_at(w, id_d0 as int));
        assert(eval_node(fin.nodes@, d1e as int, w, f, ch) == wit_at(w, id_d1 as int));
        assert(eval_node(fin.nodes@, o0e as int, w, f, ch) == wit_at(w, id_o0 as int));
        assert(eval_node(fin.nodes@, o1e as int, w, f, ch) == wit_at(w, id_o1 as int));
        assert(eval_node(fin.nodes@, r0e as int, w, f, ch) == wit_at(w, id_r0 as int));
        assert(eval_node(fin.nodes@, r1e as int, w, f, ch) == wit_at(w, id_r1 as int));
        assert(eval_node(fin.nodes@, v0e as int, w, f, ch) == wit_at(w, id_v0 as int));
        assert(eval_node(fin.nodes@, v1e as int, w, f, ch) == wit_at(w, id_v1 as int));
        assert(eval_node(fin.nodes@, c0e as int, w, f, ch) == wit_at(w, id_c0 as int));
        assert(eval_node(fin.nodes@, c1le as int, w, f, ch) == wit_at(w, id_c1l as int));
        assert(eval_node(fin.nodes@, c1he as int, w, f, ch) == wit_at(w, id_c1h as int));
        assert(eval_node(fin.nodes@, ize as int, w, f, ch) == wit_at(w, id_iz as int));
        assert(eval_node(fin.nodes@, lte as int, w, f, ch) == wit_at(w, id_lt as int));
        assert(eval_node(fin.nodes@, shift16 as int, w, f, ch) == (0x10000nat, 0nat));
        assert(eval_node(fin.nodes@, zero0 as int, w, f, ch) == (0nat, 0nat));
        assert(eval_node(fin.nodes@, zero1 as int, w, f, ch) == (0nat, 0nat));
        assert(eval_node(fin.nodes@, p00 as int, w, f, ch) == e_mul(
            wit_at(w, id_d0 as int),
            wit_at(w, id_o0 as int),
        ));
        assert(eval_node(fin.nodes@, p01 as int, w, f, ch) == e_mul(
            wit_at(w, id_d0 as int),
            wit_at(w, id_o1 as int),
        ));
        assert(eval_node(fin.nodes@, p10 as int, w, f, ch) == e_mul(
            wit_at(w, id_d1 as int),
            wit_at(w, id_o0 as int),
        ));
        assert(eval_node(fin.nodes@, cross as int, w, f, ch) == e_add(
            e_mul(wit_at(w, id_d0 as int), wit_at(w, id_o1 as int)),
            e_mul(wit_at(w, id_d1 as int), wit_at(w, id_o0 as int)),
        ));
        assert(eval_node(fin.nodes@, with_r1 as int, w, f, ch) == e_add(
            e_add(
                e_mul(wit_at(w, id_d0 as int), wit_at(w, id_o1 as int)),
                e_mul(wit_at(w, id_d1 as int), wit_at(w, id_o0 as int)),
            ),
            wit_at(w, id_r1 as int),
        ));
        assert(eval_node(fin.nodes@, carry0_term as int, w, f, ch) == e_add(
            e_mul(wit_at(w, id_c0 as int), (0x10000nat, 0nat)),
            (0nat, 0nat),
        ));
        assert(eval_node(fin.nodes@, carry1 as int, w, f, ch) == e_add(
            e_mul(wit_at(w, id_c1h as int), (0x10000nat, 0nat)),
            wit_at(w, id_c1l as int),
        ));
        assert(eval_node(fin.nodes@, carry1_term as int, w, f, ch) == e_add(
            e_mul(
                e_add(
                    e_mul(wit_at(w, id_c1h as int), (0x10000nat, 0nat)),
                    wit_at(w, id_c1l as int),
                ),
                (0x10000nat, 0nat),
            ),
            (0nat, 0nat),
        ));
    }
}

/// An instruction circuit compiling one opcode's semantics.
pub struct ArithInstruction<I>(core::marker::PhantomData<I>);

/// The unsigned-division instruction circuit.
pub type DivUInstruction = ArithInstruction<DivUOp>;

impl<I: RIVInstruction> ArithInstruction<I> {
    /// The diagnostic name of the compiled opcode.
    pub fn name() -> String {
        match I::inst_kind() {
            InsnKind::Divu => String::from_str("DIVU"),
        }
    }

    /// Registers the whole division circuit; `divu_row_constraints` pins the
    /// evaluation of every constraint it registers.
    #[verifier::rlimit(100)]
    pub fn construct_circuit(cb: &mut CircuitBuilder) -> (r: Result<ArithConfig, ZKVMError>)
        ensures
            r is Ok,
            r matches Ok(cfg) ==> {
                &&& cs_extends(final(cb).cs, old(cb).cs)
                &&& final(cb).cs.witin_names@.len() == old(cb).cs.witin_names@.len() + 16
                &&& cfg.divisor.limbs@[0].id == old(cb).cs.witin_names@.len()
                &&& cfg.wf(final(cb).cs.witin_names@.len() as nat)
                &&& final(cb).cs.zero_constraints@.len() == old(cb).cs.zero_constraints@.len() + 5
                &&& final(cb).cs.eq_constraints@.len() == old(cb).cs.eq_constraints@.len() + 4
                &&& final(cb).cs.lk_expressions@.len() == old(cb).cs.lk_expressions@.len() + 10
                &&& final(cb).cs.lk_tables@ == old(cb).cs.lk_tables@
                &&& forall|w: Seq<nat>, f: Seq<nat>, ch: Seq<(nat, nat)>|
                    #[trigger] divu_row_constraints(old(cb).cs, final(cb).cs, w, f, ch)
            },
    {
        let ghost s0 = cb.cs;
        let divisor = match UInt::new_unchecked("divisor", cb) {
            Ok(u) => u,
            Err(e) => {
                return Err(e);
            },
        };
        let ghost sd = cb.cs;
        let outcome = match UInt::new("outcome", cb) {
            Ok(u) => u,
            Err(e) => {
                return Err(e);
            },
        };
        let ghost so = cb.cs;
        let remainder = match UInt::new("remainder", cb) {
            Ok(u) => u,
            Err(e) => {
                return Err(e);
            },
        };
        let ghost sr = cb.cs;
        let dividend = match UInt::new("dividend", cb) {
            Ok(u) => u,
            Err(e) => {
                return Err(e);
            },
        };
        let ghost sv = cb.cs;
        let carry0 = cb.create_witin("carry_0");
        let c0e = cb.expr_wit(carry0);
        let _ = cb.assert_ux::<16>("carry_0", c0e);
        let carry1_lo = cb.create_witin("carry_1_lo");
        let c1le = cb.expr_wit(carry1_lo);
        let _ = cb.assert_ux::<16>("carry_1_lo", c1le);
        let carry1_hi = cb.create_witin("carry_1_hi");
        let c1he = cb.expr_wit(carry1_hi);
        let ghost s_bit = cb.cs;
        let _ = cb.assert_bit("carry_1_hi", c1he);
        let ghost s_bitpost = cb.cs;

        // divisor·outcome + remainder = dividend, limb by limb with carries.
        let p00 = cb.expr_product(divisor.limb_exprs[0], outcome.limb_exprs[0]);
        let low_lhs = cb.expr_sum(p00, remainder.limb_exprs[0]);
        let shift16 = cb.expr_constant(Fp::from_u64(0x10000));
        let zero0 = cb.expr_constant(Fp::zero());
        let carry0_term = cb.expr_scaled_sum(c0e, shift16, zero0);
        let low_rhs = cb.expr_sum(dividend.limb_exprs[0], carry0_term);
        let _ = cb.require_equal("mul_add_low", low_lhs, low_rhs);

        let p01 = cb.expr_product(divisor.limb_exprs[0], outcome.limb_exprs[1]);
        let p10 = cb.expr_product(divisor.limb_exprs[1], outcome.limb_exprs[0]);
        let cross = cb.expr_sum(p01, p10);
        let with_r1 = cb.expr_sum(cross, remainder.limb_exprs[1]);
        let high_lhs = cb.expr_sum(with_r1, c0e);
        let carry1 = cb.expr_scaled_sum(c1he, shift16, c1le);
        let zero1 = cb.expr_constant(Fp::zero());
        let carry1_term = cb.expr_scaled_sum(carry1, shift16, zero1);
        let high_rhs = cb.expr_sum(dividend.limb_exprs[1], carry1_term);
        let _ = cb.require_equal("mul_add_high", high_lhs, high_rhs);

        let ghost s_mul = cb.cs;

        // Division-by-zero convention: outcome is all-ones when divisor is 0.
        let dv = divisor.value();
        let is_zero = match IsZeroConfig::construct_circuit(cb, "divisor_zero_check", dv) {
            Ok(c) => c,
            Err(e) => {
                return Err(e);
            },
        };
        let ghost s_iz = cb.cs;
        let allones = cb.expr_constant(Fp::from_u64(0xffff_ffff));
        let ov = outcome.value();
        let ghost s_all = cb.cs;
        let _ = cb.condition_require_equal(
            "outcome_is_zero",
            is_zero.expr(),
            ov,
            allones,
            ov,
        );

        let ghost s_cond = cb.cs;

        // remainder < divisor, as a computed predicate.
        let rv = remainder.value();
        let lt = match IsLtConfig::construct_circuit(
            cb,
            "remainder < divisor?",
            rv,
            dv,
            UINT_LIMBS,
        ) {
            Ok(c) => c,
            Err(e) => {
                return Err(e);
            },
        };

        let ghost s_lt = cb.cs;

        // Exactly one of "divisor is zero" and "remainder < divisor" holds.
        let flags = cb.expr_sum(is_zero.expr(), lt.expr());
        let one = cb.expr_constant(Fp::one());
        let _ = cb.require_equal("remainder < divisor when non-zero divisor", flags, one);

        proof {
            let fin = cb.cs;
            let b = s0.witin_names@.len() as int;
            let oz = s0.zero_constraints@.len() as int;
            let oe = s0.eq_constraints@.len() as int;
            // Every snapshot is a prefix of the final arena.
            assert(forall|j: int| 0 <= j < s_lt.nodes@.len() ==> s_lt.nodes@[j] == fin.nodes@[j]);
            assert(forall|j: int|
                0 <= j < s_cond.nodes@.len() ==> s_cond.nodes@[j] == fin.nodes@[j]);
            assert(forall|j: int| 0 <= j < s_all.nodes@.len() ==> s_all.nodes@[j] == fin.nodes@[j]);
            assert(forall|j: int| 0 <= j < s_iz.nodes@.len() ==> s_iz.nodes@[j] == fin.nodes@[j]);
            assert(forall|j: int|
                0 <= j < s_mul.nodes@.len() ==> s_mul.nodes@[j] == fin.nodes@[j]);
            assert(forall|j: int| 0 <= j < sv.nodes@.len() ==> sv.nodes@[j] == fin.nodes@[j]);
            assert(forall|j: int| 0 <= j < sr.nodes@.len() ==> sr.nodes@[j] == fin.nodes@[j]);
            assert(forall|j: int| 0 <= j < so.nodes@.len() ==> so.nodes@[j] == fin.nodes@[j]);
            assert(forall|j: int| 0 <= j < sd.nodes@.len() ==> sd.nodes@[j] == fin.nodes@[j]);
            // The registered constraint entries, by index.
            assert(forall|j: int|
                0 <= j < s_bitpost.nodes@.len() ==> s_bitpost.nodes@[j] == fin.nodes@[j]);
            assert(fin.zero_constraints@[oz + 0].expr == s_bitpost.zero_constraints@.last().expr);
            assert(fin.zero_constraints@[oz + 1].expr == s_iz.zero_constraints@[oz + 1].expr);
            assert(fin.zero_constraints@[oz + 2].expr == s_iz.zero_constraints@[oz + 2].expr);
            assert(fin.zero_constraints@[oz + 3].expr == s_cond.zero_constraints@.last().expr);
            assert(fin.zero_constraints@[oz + 4].expr == s_lt.zero_constraints@.last().expr);
            assert(fin.eq_constraints@[oe + 0].lhs == low_lhs
                && fin.eq_constraints@[oe + 0].rhs == low_rhs);
            assert(fin.eq_constraints@[oe + 1].lhs == high_lhs
                && fin.eq_constraints@[oe + 1].rhs == high_rhs);
            assert(fin.eq_constraints@[oe + 2].lhs == s_lt.eq_constraints@.last().lhs
                && fin.eq_constraints@[oe + 2].rhs == s_lt.eq_constraints@.last().rhs);
            assert(fin.eq_constraints@[oe + 3].lhs == flags && fin.eq_constraints@[oe + 3].rhs
                == one);
            // The operand-value expressions, over the final arena.
            assert forall|w: Seq<nat>, f: Seq<nat>, ch: Seq<(nat, nat)>|
                #[trigger] eval_node(fin.nodes@, dv as int, w, f, ch) == limbs_eval(w, b, 2) by {
                crate::expr::lemma_eval_extend_one(sd.nodes@, fin.nodes@, dv as int, w, f, ch);
            }
            assert forall|w: Seq<nat>, f: Seq<nat>, ch: Seq<(nat, nat)>|
                #[trigger] eval_node(fin.nodes@, ov as int, w, f, ch) == limbs_eval(
                w,
                b + 2,
                2,
            ) by {
                crate::expr::lemma_eval_extend_one(so.nodes@, fin.nodes@, ov as int, w, f, ch);
            }
            assert forall|w: Seq<nat>, f: Seq<nat>, ch: Seq<(nat, nat)>|
                #[trigger] eval_node(fin.nodes@, rv as int, w, f, ch) == limbs_eval(
                w,
                b + 4,
                2,
            ) by {
                crate::expr::lemma_eval_extend_one(sr.nodes@, fin.nodes@, rv as int, w, f, ch);
            }
            // The gadget-registered constraints, over the final arena.
            assert forall|w: Seq<nat>, f: Seq<nat>, ch: Seq<(nat, nat)>|
                #[trigger] eval_node(
                fin.nodes@,
                fin.zero_constraints@[oz + 0].expr as int,
                w,
                f,
                ch,
            ) == e_mul(wit_at(w, b + 10), e_sub(wit_at(w, b + 10), (1nat, 0nat))) by {
                assert(eval_node(s_bit.nodes@, c1he as int, w, f, ch) == wit_at(w, b + 10));
                crate::expr::lemma_eval_extend_one(
                    s_bitpost.nodes@,
                    fin.nodes@,
                    s_bitpost.zero_constraints@.last().expr as int,
                    w,
                    f,
                    ch,
                );
            }
            assert forall|w: Seq<nat>, f: Seq<nat>, ch: Seq<(nat, nat)>|
                #[trigger] eval_node(
                fin.nodes@,
                fin.zero_constraints@[oz + 1].expr as int,
                w,
                f,
                ch,
            ) == e_mul(wit_at(w, b + 11), limbs_eval(w, b, 2)) && eval_node(
                fin.nodes@,
                fin.zero_constraints@[oz + 2].expr as int,
                w,
                f,
                ch,
            ) == e_sub(
                e_mul(limbs_eval(w, b, 2), wit_at(w, b + 12)),
                e_sub((1nat, 0nat), wit_at(w, b + 11)),
            ) by {
                crate::expr::lemma_eval_extend_one(sd.nodes@, s_mul.nodes@, dv as int, w, f, ch);
                crate::expr::lemma_eval_extend_one(
                    s_iz.nodes@,
                    fin.nodes@,
                    s_iz.zero_constraints@[oz + 1].expr as int,
                    w,
                    f,
                    ch,
                );
                crate::expr::lemma_eval_extend_one(
                    s_iz.nodes@,
                    fin.nodes@,
                    s_iz.zero_constraints@[oz + 2].expr as int,
                    w,
                    f,
                    ch,
                );
            }
            assert forall|w: Seq<nat>, f: Seq<nat>, ch: Seq<(nat, nat)>|
                #[trigger] eval_node(
                fin.nodes@,
                fin.zero_constraints@[oz + 3].expr as int,
                w,
                f,
                ch,
            ) == e_sub(
                e_add(
                    e_mul(
                        wit_at(w, b + 11),
                        e_sub((0xffff_ffffnat, 0nat), limbs_eval(w, b + 2, 2)),
                    ),
                    limbs_eval(w, b + 2, 2),
                ),
                limbs_eval(w, b + 2, 2),
            ) by {
                assert(eval_node(s_all.nodes@, is_zero.is_zero_expr as int, w, f, ch) == wit_at(
                    w,
                    b + 11,
                ));
                assert(eval_node(s_all.nodes@, allones as int, w, f, ch) == (
                    0xffff_ffffnat,
                    0nat,
                )) by {
                    vstd::arithmetic::div_mod::lemma_small_mod(
                        0xffff_ffffnat,
                        crate::field::FIELD_MODULUS as nat,
                    );
                }
                crate::expr::lemma_eval_extend_one(so.nodes@, s_all.nodes@, ov as int, w, f, ch);
                crate::expr::lemma_eval_extend_one(
                    s_cond.nodes@,
                    fin.nodes@,
                    s_cond.zero_constraints@.last().expr as int,
                    w,
                    f,
                    ch,
                );
            }
            assert forall|w: Seq<nat>, f: Seq<nat>, ch: Seq<(nat, nat)>|
                #[trigger] eval_node(
                fin.nodes@,
                fin.zero_constraints@[oz + 4].expr as int,
                w,
                f,
                ch,
            ) == e_mul(wit_at(w, b + 13), e_sub(wit_at(w, b + 13), (1nat, 0nat))) && eval_node(
                fin.nodes@,
                fin.eq_constraints@[oe + 2].lhs as int,
                w,
                f,
                ch,
            ) == e_sub(limbs_eval(w, b + 4, 2), limbs_eval(w, b, 2)) && eval_node(
                fin.nodes@,
                fin.eq_constraints@[oe + 2].rhs as int,
                w,
                f,
                ch,
            ) == e_sub(limbs_eval(w, b + 14, 2), e_mul(wit_at(w, b + 13), (pow2(32), 0nat))) by {
                crate::expr::lemma_eval_extend_one(sr.nodes@, s_cond.nodes@, rv as int, w, f, ch);
                crate::expr::lemma_eval_extend_one(sd.nodes@, s_cond.nodes@, dv as int, w, f, ch);
                crate::expr::lemma_eval_extend_one(
                    s_lt.nodes@,
                    fin.nodes@,
                    s_lt.zero_constraints@.last().expr as int,
                    w,
                    f,
                    ch,
                );
                crate::expr::lemma_eval_extend_one(
                    s_lt.nodes@,
                    fin.nodes@,
                    s_lt.eq_constraints@.last().lhs as int,
                    w,
                    f,
                    ch,
                );
                crate::expr::lemma_eval_extend_one(
                    s_lt.nodes@,
                    fin.nodes@,
                    s_lt.eq_constraints@.last().rhs as int,
                    w,
                    f,
                    ch,
                );
                assert(pow2((16 * 2) as nat) == pow2(32));
            }
            // The multiply-add and guard expressions, by their node structure.
            lemma_divu_built_evals(
                fin,
                divisor.limb_exprs@[0],
                divisor.limb_exprs@[1],
                outcome.limb_exprs@[0],
                outcome.limb_exprs@[1],
                remainder.limb_exprs@[0],
                remainder.limb_exprs@[1],
                dividend.limb_exprs@[0],
                dividend.limb_exprs@[1],
                c0e,
                c1le,
                c1he,
                is_zero.is_zero_expr,
                lt.is_lt_expr,
                shift16,
                zero0,
                zero1,
                p00,
                low_lhs,
                carry0_term,
                low_rhs,
                p01,
                p10,
                cross,
                with_r1,
                high_lhs,
                carry1,
                carry1_term,
                high_rhs,
                flags,
                one,
                divisor.limbs@[0].id,
                divisor.limbs@[1].id,
                outcome.limbs@[0].id,
                outcome.limbs@[1].id,
                remainder.limbs@[0].id,
                remainder.limbs@[1].id,
                dividend.limbs@[0].id,
                dividend.limbs@[1].id,
                carry0.id,
                carry1_lo.id,
                carry1_hi.id,
                is_zero.is_zero.id,
                lt.is_lt.id,
            );
            assert forall|w: Seq<nat>, f: Seq<nat>, ch: Seq<(nat, nat)>|
                #[trigger] divu_row_constraints(s0, fin, w, f, ch) by {
                assert(eval_node(fin.nodes@, low_lhs as int, w, f, ch) == e_add(
                    e_mul(wit_at(w, b), wit_at(w, b + 2)),
                    wit_at(w, b + 4),
                ));
                assert(eval_node(fin.nodes@, low_rhs as int, w, f, ch) == e_add(
                    wit_at(w, b + 6),
                    e_add(e_mul(wit_at(w, b + 8), (0x10000nat, 0nat)), (0nat, 0nat)),
                ));
                assert(eval_node(fin.nodes@, high_lhs as int, w, f, ch) == e_add(
                    e_add(
                        e_add(
                            e_mul(wit_at(w, b), wit_at(w, b + 3)),
                            e_mul(wit_at(w, b + 1), wit_at(w, b + 2)),
                        ),
                        wit_at(w, b + 5),
                    ),
                    wit_at(w, b + 8),
                ));
                assert(eval_node(fin.nodes@, high_rhs as int, w, f, ch) == e_add(
                    wit_at(w, b + 7),
                    e_add(
                        e_mul(
                            e_add(e_mul(wit_at(w, b + 10), (0x10000nat, 0nat)), wit_at(w, b + 9)),
                            (0x10000nat, 0nat),
                        ),
                        (0nat, 0nat),
                    ),
                ));
                assert(eval_node(fin.nodes@, flags as int, w, f, ch) == e_add(
                    wit_at(w, b + 11),
                    wit_at(w, b + 13),
                ));
                assert(eval_node(fin.nodes@, one as int, w, f, ch) == (1nat, 0nat));
            }
        }
        Ok(
            ArithConfig {
                dividend,
                divisor,
                outcome,
                remainder,
                carry0,
                carry1_lo,
                carry1_hi,
                is_zero,
                remainder_lt: lt,
            },
        )
    }

    /// Fills every column the circuit owns from one execution step: the
    /// operands, the true quotient data, the multiply-add carries and both
    /// sub-gadgets, reporting all range-check multiplicities incurred.
    /// Assignment never fails: a malformed record is a caller contract
    /// violation, excluded by the requires, not a recoverable error.
    pub fn assign_instance(
        config: &ArithConfig,
        instance: &mut Vec<Fp>,
        lkm: &mut LkMultiplicity,
        step: &StepRecord,
    ) -> (r: Result<(), ZKVMError>)
        requires
            config.wf(old(instance)@.len() as nat),
        ensures
            r is Ok,
            final(instance)@.len() == old(instance)@.len(),
            row_assigned(*config, final(instance)@, *step),
            forall|v: u64|
                final(lkm).u16_count(v) == crate::lkm::multi_bumped(
                    old(lkm).u16_count(v),
                    crate::lkm::occurrences(divu_reported_u16(*step), v),
                ),
            forall|v: u64| final(lkm).u5_count(v) == old(lkm).u5_count(v),
    {
        let rs1 = step.rs1;
        let rs2 = step.rs2;
        let rd = step.rd_after;
        let r_val: u32 = if rs2 == 0 {
            0
        } else {
            rs1 % rs2
        };
        let divisor = Value::new_unchecked(rs2);
        let outcome = Value::new(rd, lkm);
        let remainder = Value::new(r_val, lkm);
        let parts = mul_add_limbs(rs2, rd, r_val);
        config.divisor.assign_limbs(instance, divisor.limb_lo(), divisor.limb_hi());
        config.outcome.assign_limbs(instance, outcome.limb_lo(), outcome.limb_hi());
        config.remainder.assign_limbs(instance, remainder.limb_lo(), remainder.limb_hi());
        config.dividend.assign_limbs(instance, parts.dividend_lo, parts.dividend_hi);
        let ghost reported = divu_reported_u16(*step);
        let ghost pre_parts = crate::uint::word_limbs(rd) + crate::uint::word_limbs(r_val);
        proof {
            assert forall|v: u64|
                lkm.u16_count(v) == crate::lkm::multi_bumped(
                    old(lkm).u16_count(v),
                    crate::lkm::occurrences(pre_parts, v),
                ) by {
                crate::lkm::lemma_occurrences_concat(
                    crate::uint::word_limbs(rd),
                    crate::uint::word_limbs(r_val),
                    v,
                );
                crate::lkm::lemma_multi_bumped_add(
                    old(lkm).u16_count(v),
                    crate::lkm::occurrences(crate::uint::word_limbs(rd), v),
                    crate::lkm::occurrences(crate::uint::word_limbs(r_val), v),
                );
            }
        }
        lkm.assert_ux::<16>(parts.dividend_lo);
        lkm.assert_ux::<16>(parts.dividend_hi);
        lkm.assert_ux::<16>(parts.c0);
        lkm.assert_ux::<16>(parts.c1_lo);
        let ghost parts_seq = seq![parts.dividend_lo, parts.dividend_hi, parts.c0, parts.c1_lo];
        proof {
            assert forall|v: u64|
                lkm.u16_count(v) == crate::lkm::multi_bumped(
                    old(lkm).u16_count(v),
                    crate::lkm::occurrences(pre_parts + parts_seq, v),
                ) by {
                crate::lkm::lemma_occurrences_concat(pre_parts, parts_seq, v);
                crate::lkm::lemma_multi_bumped_add(
                    old(lkm).u16_count(v),
                    crate::lkm::occurrences(pre_parts, v),
                    crate::lkm::occurrences(parts_seq, v),
                );
                assert(parts_seq.drop_last() =~= seq![
                    parts.dividend_lo,
                    parts.dividend_hi,
                    parts.c0,
                ]);
                assert(seq![parts.dividend_lo, parts.dividend_hi, parts.c0].drop_last() =~= seq![
                    parts.dividend_lo,
                    parts.dividend_hi,
                ]);
                assert(seq![parts.dividend_lo, parts.dividend_hi].drop_last() =~= seq![
                    parts.dividend_lo,
                ]);
                assert(seq![parts.dividend_lo].drop_last() =~= Seq::<u64>::empty());
                assert(crate::lkm::occurrences(Seq::<u64>::empty(), v) == 0);
                assert(crate::lkm::occurrences(seq![parts.dividend_lo], v)
                    == crate::lkm::occurrences(Seq::<u64>::empty(), v) + (
                if parts.dividend_lo == v {
                    1nat
                } else {
                    0nat
                }));
                assert(crate::lkm::occurrences(seq![parts.dividend_lo, parts.dividend_hi], v)
                    == crate::lkm::occurrences(seq![parts.dividend_lo], v) + (
                if parts.dividend_hi == v {
                    1nat
                } else {
                    0nat
                }));
                assert(crate::lkm::occurrences(
                    seq![parts.dividend_lo, parts.dividend_hi, parts.c0],
                    v,
                ) == crate::lkm::occurrences(seq![parts.dividend_lo, parts.dividend_hi], v) + (
                if parts.c0 == v {
                    1nat
                } else {
                    0nat
                }));
                assert(crate::lkm::occurrences(parts_seq, v) == crate::lkm::occurrences(
                    seq![parts.dividend_lo, parts.dividend_hi, parts.c0],
                    v,
                ) + (if parts.c1_lo == v {
                    1nat
                } else {
                    0nat
                }));
                let c = crate::lkm::multi_bumped(
                    old(lkm).u16_count(v),
                    crate::lkm::occurrences(pre_parts, v),
                );
                assert(crate::lkm::multi_bumped(c, 0) == c);
                assert(crate::lkm::multi_bumped(c, 1) == crate::lkm::bumped(c));
                assert(crate::lkm::multi_bumped(c, 2) == crate::lkm::bumped(
                    crate::lkm::multi_bumped(c, 1),
                ));
                assert(crate::lkm::multi_bumped(c, 3) == crate::lkm::bumped(
                    crate::lkm::multi_bumped(c, 2),
                ));
                assert(crate::lkm::multi_bumped(c, 4) == crate::lkm::bumped(
                    crate::lkm::multi_bumped(c, 3),
                ));
            }
        }
        proof {
            vstd::arithmetic::div_mod::lemma_small_mod(
                parts.c0 as nat,
                crate::field::FIELD_MODULUS as nat,
            );
            vstd::arithmetic::div_mod::lemma_small_mod(
                parts.c1_lo as nat,
                crate::field::FIELD_MODULUS as nat,
            );
            vstd::arithmetic::div_mod::lemma_small_mod(
                parts.c1_hi as nat,
                crate::field::FIELD_MODULUS as nat,
            );
        }
        set_val(instance, config.carry0, Fp::from_u64(parts.c0));
        set_val(instance, config.carry1_lo, Fp::from_u64(parts.c1_lo));
        set_val(instance, config.carry1_hi, Fp::from_u64(parts.c1_hi));
        let _ = config.is_zero.assign_instance(instance, Fp::from_u32(rs2));
        proof {
            assert(pow2(32) == 0x1_0000_0000) by {
                vstd::arithmetic::power2::lemma2_to64();
            }
        }
        let _ = config.remainder_lt.assign_instance(instance, lkm, r_val as u64, rs2 as u64);
        proof {
            assert forall|v: u64|
                lkm.u16_count(v) == crate::lkm::multi_bumped(
                    old(lkm).u16_count(v),
                    crate::lkm::occurrences(reported, v),
                ) by {
                let tail = crate::is_lt::limb_seq(
                    crate::is_lt::diff_value(2, r_val as nat, rs2 as nat),
                    2,
                );
                assert(reported =~= (pre_parts + parts_seq) + tail);
                crate::lkm::lemma_occurrences_concat(pre_parts + parts_seq, tail, v);
                crate::lkm::lemma_multi_bumped_add(
                    old(lkm).u16_count(v),
                    crate::lkm::occurrences(pre_parts + parts_seq, v),
                    crate::lkm::occurrences(tail, v),
                );
            }
        }
        Ok(())
    }

    /// Builds the witness rows for a batch of execution steps: one row per
    /// step, every column zero until assigned, row `i` assigned from step
    /// `i`. Never fails.
    pub fn assign_instances(
        config: &ArithConfig,
        num_witin: usize,
        steps: &Vec<StepRecord>,
    ) -> (r: Result<(Vec<Vec<Fp>>, LkMultiplicity), ZKVMError>)
        requires
            config.wf(num_witin as nat),
        ensures
            r is Ok,
            r matches Ok(p) ==> {
                &&& p.0@.len() == steps@.len()
                &&& forall|i: int| 0 <= i < p.0@.len() ==> (#[trigger] p.0@[i])@.len() == num_witin
                &&& forall|i: int|
                    0 <= i < p.0@.len() ==> row_assigned(*config, (#[trigger] p.0@[i])@, steps@[i])
            },
    {
        let mut lkm = LkMultiplicity::new();
        let mut rows: Vec<Vec<Fp>> = Vec::new();
        let mut s: usize = 0;
        while s < steps.len()
            invariant
                config.wf(num_witin as nat),
                s <= steps@.len(),
                rows@.len() == s,
                forall|i: int| 0 <= i < rows@.len() ==> (#[trigger] rows@[i])@.len() == num_witin,
                forall|i: int|
                    0 <= i < rows@.len() ==> row_assigned(
                        *config,
                        (#[trigger] rows@[i])@,
                        steps@[i],
                    ),
            decreases steps@.len() - s,
        {
            let mut row: Vec<Fp> = Vec::new();
            let mut k: usize = 0;
            while k < num_witin
                invariant
                    k <= num_witin,
                    row@.len() == k,
                decreases num_witin - k,
            {
                row.push(Fp::zero());
                k = k + 1;
            }
            let _ = Self::assign_instance(config, &mut row, &mut lkm, &steps[s]);
            rows.push(row);
            s = s + 1;
        }
        Ok((rows, lkm))
    }
}

} // verus!
