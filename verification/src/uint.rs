//! 32-bit operand words as pairs of 16-bit limb columns, the sign-extension
//! helper used by signed comparison, and the concrete limb arithmetic used
//! during witness assignment.

use vstd::prelude::*;

use crate::cs::{cs_extends, CircuitBuilder};
use crate::error::ZKVMError;
use crate::expr::{eval_node, ExprNode, WitIn};
use crate::field::{e_add, e_mul, e_sub, Fp, FIELD_MODULUS};
use crate::is_lt::{limbs_eval, wit_at};
use crate::lkm::{bumped, LkMultiplicity};
use crate::witness::set_val;

verus! {

use vstd::arithmetic::power2::pow2;
use vstd::arithmetic::div_mod::lemma_small_mod;
use vstd::bits::lemma_u64_shr_is_div;
use vstd::bits::lemma_u64_low_bits_mask_is_mod;
use vstd::bits::lemma_low_bits_mask_values;

/// The number of 16-bit limbs in one operand word.
pub const UINT_LIMBS: usize = 2;

/// One 32-bit operand as two 16-bit limb columns, with the combined value
/// available as an expression.
pub struct UInt {
    pub limbs: Vec<WitIn>,
    pub limb_exprs: Vec<usize>,
    pub value_expr: usize,
}

impl UInt {
    /// The word's columns fit a row of `n` columns.
    pub open spec fn wf(self, n: nat) -> bool {
        &&& self.limbs@.len() == 2
        &&& self.limbs@[0].id < n
        &&& self.limbs@[1].id < n
        &&& self.limbs@[0].id != self.limbs@[1].id
    }

    /// The word's expression handles lie in an arena of `n` nodes.
    pub open spec fn expr_wf(self, n: nat) -> bool {
        &&& self.limb_exprs@.len() == 2
        &&& self.limbs@.len() == 2
        &&& self.value_expr < n
        &&& self.limb_exprs@[0] < n
        &&& self.limb_exprs@[1] < n
    }

    /// The combined-value expression `limb_0 + limb_1·2^16`.
    pub fn value(&self) -> (r: usize)
        ensures
            r == self.value_expr,
    {
        self.value_expr
    }

    /// Registers the two limb columns and the combined-value expression;
    /// with `checked` the limbs are also 16-bit range-checked.
    fn build(cb: &mut CircuitBuilder, name: &str, checked: bool) -> (r: Result<UInt, ZKVMError>)
        ensures
            r is Ok,
            r matches Ok(u) ==> {
                &&& cs_extends(final(cb).cs, old(cb).cs)
                &&& final(cb).cs.witin_names@.len() == old(cb).cs.witin_names@.len() + 2
                &&& u.limbs@.len() == 2
                &&& u.limb_exprs@.len() == 2
                &&& u.limbs@[0].id == old(cb).cs.witin_names@.len()
                &&& u.limbs@[1].id == old(cb).cs.witin_names@.len() + 1
                &&& u.limbs@.len() == 2
                &&& u.limb_exprs@.len() == 2
                &&& u.wf(final(cb).cs.witin_names@.len() as nat)
                &&& final(cb).cs.zero_constraints@ == old(cb).cs.zero_constraints@
                &&& final(cb).cs.eq_constraints@ == old(cb).cs.eq_constraints@
                &&& final(cb).cs.lk_tables@ == old(cb).cs.lk_tables@
                &&& final(cb).cs.lk_expressions@.len() == old(cb).cs.lk_expressions@.len() + (
                if checked {
                    2int
                } else {
                    0int
                })
                &&& u.value_expr < final(cb).cs.nodes@.len()
                &&& final(cb).cs.nodes@[u.limb_exprs@[0] as int] == ExprNode::Wit(u.limbs@[0].id)
                &&& final(cb).cs.nodes@[u.limb_exprs@[1] as int] == ExprNode::Wit(u.limbs@[1].id)
                &&& u.limb_exprs@[0] < final(cb).cs.nodes@.len()
                &&& u.limb_exprs@[1] < final(cb).cs.nodes@.len()
                &&& forall|w: Seq<nat>, f: Seq<nat>, ch: Seq<(nat, nat)>|
                    #[trigger] eval_node(final(cb).cs.nodes@, u.value_expr as int, w, f, ch)
                        == limbs_eval(w, u.limbs@[0].id as int, 2)
            },
    {
        cb.push_namespace(name);
        let ghost s0 = cb.cs;
        let l0 = cb.create_witin("limb_0");
        let e0 = cb.expr_wit(l0);
        let ghost s1 = cb.cs;
        let l1 = cb.create_witin("limb_1");
        let e1 = cb.expr_wit(l1);
        let ghost s2 = cb.cs;
        if checked {
            let _ = cb.assert_ux::<16>(name, e0);
            let _ = cb.assert_ux::<16>(name, e1);
        }
        let ghost s3 = cb.cs;
        let zero = cb.expr_constant(Fp::zero());
        let ghost s4 = cb.cs;
        let one = cb.expr_constant(Fp::one());
        let ghost s5 = cb.cs;
        let acc1 = cb.expr_scaled_sum(e0, one, zero);
        let ghost s6 = cb.cs;
        let shift = cb.expr_constant(Fp::from_u64(0x10000));
        let ghost s7 = cb.cs;
        let value_expr = cb.expr_scaled_sum(e1, shift, acc1);
        cb.pop_namespace();
        let mut limbs: Vec<WitIn> = Vec::new();
        limbs.push(l0);
        limbs.push(l1);
        let mut limb_exprs: Vec<usize> = Vec::new();
        limb_exprs.push(e0);
        limb_exprs.push(e1);
        let u = UInt { limbs, limb_exprs, value_expr };
        proof {
            assert(forall|j: int|
                0 <= j < s2.nodes@.len() ==> s2.nodes@[j] == final(cb).cs.nodes@[j]);
            assert(pow2(0) == 1 && pow2(16) == 65536) by {
                vstd::arithmetic::power2::lemma2_to64();
            }
            lemma_small_mod(1nat, FIELD_MODULUS as nat);
            lemma_small_mod(65536nat, FIELD_MODULUS as nat);
            assert forall|w: Seq<nat>, f: Seq<nat>, ch: Seq<(nat, nat)>|
                #[trigger] eval_node(cb.cs.nodes@, value_expr as int, w, f, ch) == limbs_eval(
                w,
                l0.id as int,
                2,
            ) by {
                assert(eval_node(s5.nodes@, e0 as int, w, f, ch) == wit_at(w, l0.id as int));
                assert(eval_node(s5.nodes@, zero as int, w, f, ch) == (0nat, 0nat));
                assert(eval_node(s5.nodes@, one as int, w, f, ch) == (1nat, 0nat));
                assert(eval_node(s6.nodes@, acc1 as int, w, f, ch) == crate::field::e_add(
                    crate::field::e_mul(wit_at(w, l0.id as int), (1nat, 0nat)),
                    (0nat, 0nat),
                ));
                crate::expr::lemma_eval_extend_one(s6.nodes@, s7.nodes@, acc1 as int, w, f, ch);
                assert(eval_node(s7.nodes@, acc1 as int, w, f, ch) == crate::field::e_add(
                    crate::field::e_mul(wit_at(w, l0.id as int), (1nat, 0nat)),
                    (0nat, 0nat),
                ));
                assert(eval_node(s7.nodes@, e1 as int, w, f, ch) == wit_at(w, l1.id as int));
                assert(eval_node(s7.nodes@, shift as int, w, f, ch) == (65536nat, 0nat));
                assert(limbs_eval(w, l0.id as int, 0) == (0nat, 0nat));
                assert(limbs_eval(w, l0.id as int, 1) == crate::field::e_add(
                    crate::field::e_mul(
                        wit_at(w, l0.id as int),
                        (pow2(0) % (FIELD_MODULUS as nat), 0nat),
                    ),
                    (0nat, 0nat),
                ));
                assert(limbs_eval(w, l0.id as int, 2) == crate::field::e_add(
                    crate::field::e_mul(
                        wit_at(w, l0.id as int + 1),
                        (pow2(16) % (FIELD_MODULUS as nat), 0nat),
                    ),
                    limbs_eval(w, l0.id as int, 1),
                ));
            }
        }
        Ok(u)
    }

    /// A fresh word whose limbs are 16-bit range-checked.
    pub fn new(name: &str, cb: &mut CircuitBuilder) -> (r: Result<UInt, ZKVMError>)
        ensures
            r is Ok,
            r matches Ok(u) ==> {
                &&& cs_extends(final(cb).cs, old(cb).cs)
                &&& final(cb).cs.witin_names@.len() == old(cb).cs.witin_names@.len() + 2
                &&& u.limbs@[0].id == old(cb).cs.witin_names@.len()
                &&& u.limbs@[1].id == old(cb).cs.witin_names@.len() + 1
                &&& u.limbs@.len() == 2
                &&& u.limb_exprs@.len() == 2
                &&& u.wf(final(cb).cs.witin_names@.len() as nat)
                &&& final(cb).cs.zero_constraints@ == old(cb).cs.zero_constraints@
                &&& final(cb).cs.eq_constraints@ == old(cb).cs.eq_constraints@
                &&& final(cb).cs.lk_tables@ == old(cb).cs.lk_tables@
                &&& final(cb).cs.lk_expressions@.len() == old(cb).cs.lk_expressions@.len() + 2
                &&& u.value_expr < final(cb).cs.nodes@.len()
                &&& final(cb).cs.nodes@[u.limb_exprs@[0] as int] == ExprNode::Wit(u.limbs@[0].id)
                &&& final(cb).cs.nodes@[u.limb_exprs@[1] as int] == ExprNode::Wit(u.limbs@[1].id)
                &&& u.limb_exprs@[0] < final(cb).cs.nodes@.len()
                &&& u.limb_exprs@[1] < final(cb).cs.nodes@.len()
                &&& forall|w: Seq<nat>, f: Seq<nat>, ch: Seq<(nat, nat)>|
                    #[trigger] eval_node(final(cb).cs.nodes@, u.value_expr as int, w, f, ch)
                        == limbs_eval(w, u.limbs@[0].id as int, 2)
            },
    {
        Self::build(cb, name, true)
    }

    /// A fresh word without range checks, for operands whose range is
    /// guaranteed elsewhere.
    pub fn new_unchecked(name: &str, cb: &mut CircuitBuilder) -> (r: Result<UInt, ZKVMError>)
        ensures
            r is Ok,
            r matches Ok(u) ==> {
                &&& cs_extends(final(cb).cs, old(cb).cs)
                &&& final(cb).cs.witin_names@.len() == old(cb).cs.witin_names@.len() + 2
                &&& u.limbs@[0].id == old(cb).cs.witin_names@.len()
                &&& u.limbs@[1].id == old(cb).cs.witin_names@.len() + 1
                &&& u.limbs@.len() == 2
                &&& u.limb_exprs@.len() == 2
                &&& u.wf(final(cb).cs.witin_names@.len() as nat)
                &&& final(cb).cs.zero_constraints@ == old(cb).cs.zero_constraints@
                &&& final(cb).cs.eq_constraints@ == old(cb).cs.eq_constraints@
                &&& final(cb).cs.lk_tables@ == old(cb).cs.lk_tables@
                &&& final(cb).cs.lk_expressions@.len() == old(cb).cs.lk_expressions@.len()
                &&& u.value_expr < final(cb).cs.nodes@.len()
                &&& final(cb).cs.nodes@[u.limb_exprs@[0] as int] == ExprNode::Wit(u.limbs@[0].id)
                &&& final(cb).cs.nodes@[u.limb_exprs@[1] as int] == ExprNode::Wit(u.limbs@[1].id)
                &&& u.limb_exprs@[0] < final(cb).cs.nodes@.len()
                &&& u.limb_exprs@[1] < final(cb).cs.nodes@.len()
                &&& forall|w: Seq<nat>, f: Seq<nat>, ch: Seq<(nat, nat)>|
                    #[trigger] eval_node(final(cb).cs.nodes@, u.value_expr as int, w, f, ch)
                        == limbs_eval(w, u.limbs@[0].id as int, 2)
            },
    {
        Self::build(cb, name, false)
    }

    /// The word read as a signed field value: the unsigned value, less
    /// `2^32` when the sign expression is one.
    pub fn to_field_expr(&self, cb: &mut CircuitBuilder, is_neg_expr: usize) -> (r: usize)
        requires
            self.expr_wf(old(cb).cs.nodes@.len() as nat),
            is_neg_expr < old(cb).cs.nodes@.len(),
        ensures
            cs_extends(final(cb).cs, old(cb).cs),
            crate::cs::only_nodes_changed(final(cb).cs, old(cb).cs),
            r < final(cb).cs.nodes@.len(),
            forall|w: Seq<nat>, f: Seq<nat>, ch: Seq<(nat, nat)>|
                #[trigger] eval_node(final(cb).cs.nodes@, r as int, w, f, ch) == e_sub(
                    eval_node(old(cb).cs.nodes@, self.value_expr as int, w, f, ch),
                    e_add(
                        e_mul(
                            eval_node(old(cb).cs.nodes@, is_neg_expr as int, w, f, ch),
                            (0x1_0000_0000nat, 0nat),
                        ),
                        (0nat, 0nat),
                    ),
                ),
    {
        let ghost s0 = cb.cs;
        let wrap = cb.expr_constant(Fp::from_u64(0x1_0000_0000));
        let ghost s1 = cb.cs;
        let zero = cb.expr_constant(Fp::zero());
        let ghost s2 = cb.cs;
        let shifted = cb.expr_scaled_sum(is_neg_expr, wrap, zero);
        let ghost s3 = cb.cs;
        let r = cb.expr_sub(self.value_expr, shifted);
        proof {
            lemma_small_mod(0x1_0000_0000nat, FIELD_MODULUS as nat);
            assert forall|w: Seq<nat>, f: Seq<nat>, ch: Seq<(nat, nat)>|
                #[trigger] eval_node(cb.cs.nodes@, r as int, w, f, ch) == e_sub(
                eval_node(s0.nodes@, self.value_expr as int, w, f, ch),
                e_add(
                    e_mul(
                        eval_node(s0.nodes@, is_neg_expr as int, w, f, ch),
                        (0x1_0000_0000nat, 0nat),
                    ),
                    (0nat, 0nat),
                ),
            ) by {
                crate::expr::lemma_eval_extend_one(s0.nodes@, s2.nodes@, is_neg_expr as int, w, f, ch);
                assert(eval_node(s2.nodes@, wrap as int, w, f, ch) == (0x1_0000_0000nat, 0nat));
                assert(eval_node(s2.nodes@, zero as int, w, f, ch) == (0nat, 0nat));
                crate::expr::lemma_eval_extend_one(
                    s0.nodes@,
                    s3.nodes@,
                    self.value_expr as int,
                    w,
                    f,
                    ch,
                );
            }
        }
        r
    }

    /// Writes the two limb values of one row.
    pub fn assign_limbs(&self, instance: &mut Vec<Fp>, lo: u64, hi: u64)
        requires
            self.wf(old(instance)@.len() as nat),
            lo < 65536,
            hi < 65536,
        ensures
            final(instance)@.len() == old(instance)@.len(),
            forall|j: int|
                0 <= j < old(instance)@.len() && j != self.limbs@[0].id && j != self.limbs@[1].id
                    ==> final(instance)@[j] == old(instance)@[j],
            (final(instance)@[self.limbs@[0].id as int])@ == lo as nat,
            (final(instance)@[self.limbs@[1].id as int])@ == hi as nat,
    {
        proof {
            lemma_small_mod(lo as nat, FIELD_MODULUS as nat);
            lemma_small_mod(hi as nat, FIELD_MODULUS as nat);
        }
        set_val(instance, self.limbs[0], Fp::from_u64(lo));
        set_val(instance, self.limbs[1], Fp::from_u64(hi));
    }
}

/// The sign-extraction gadget: a boolean `is_neg` column holding the top
/// bit of a word's high limb, tied down by the decomposition
/// `top = is_neg·2^15 + rest` with `2·rest` range-checked to 16 bits.
pub struct SignedExtendConfig {
    pub is_neg: WitIn,
    pub rest: WitIn,
    pub is_neg_expr: usize,
}

impl SignedExtendConfig {
    /// The boolean sign expression.
    pub fn expr(&self) -> (r: usize)
        ensures
            r == self.is_neg_expr,
    {
        self.is_neg_expr
    }

    /// The gadget's columns fit a row of `n` columns.
    pub open spec fn wf(self, n: nat) -> bool {
        &&& self.is_neg.id < n
        &&& self.rest.id < n
        &&& self.is_neg.id != self.rest.id
    }

    /// Registers the sign decomposition of a word's high limb.
    #[verifier::rlimit(100)]
    #[verifier::spinoff_prover]
    pub fn construct_circuit(cb: &mut CircuitBuilder, top_limb: usize) -> (r: Result<
        SignedExtendConfig,
        ZKVMError,
    >)
        requires
            top_limb < old(cb).cs.nodes@.len(),
        ensures
            r is Ok,
            r matches Ok(cfg) ==> {
                &&& cs_extends(final(cb).cs, old(cb).cs)
                &&& final(cb).cs.witin_names@.len() == old(cb).cs.witin_names@.len() + 2
                &&& cfg.is_neg.id == old(cb).cs.witin_names@.len()
                &&& cfg.rest.id == old(cb).cs.witin_names@.len() + 1
                &&& cfg.wf(final(cb).cs.witin_names@.len() as nat)
                &&& final(cb).cs.lk_tables@ == old(cb).cs.lk_tables@
                &&& final(cb).cs.lk_expressions@.len() == old(cb).cs.lk_expressions@.len() + 1
                &&& final(cb).cs.zero_constraints@.len() == old(cb).cs.zero_constraints@.len() + 1
                &&& final(cb).cs.eq_constraints@.len() == old(cb).cs.eq_constraints@.len() + 1
                &&& final(cb).cs.nodes@[cfg.is_neg_expr as int] == ExprNode::Wit(cfg.is_neg.id)
                &&& cfg.is_neg_expr < final(cb).cs.nodes@.len()
                &&& final(cb).cs.zero_constraints@.last().expr < final(cb).cs.nodes@.len()
                &&& final(cb).cs.eq_constraints@.last().lhs < final(cb).cs.nodes@.len()
                &&& final(cb).cs.eq_constraints@.last().rhs < final(cb).cs.nodes@.len()
                &&& final(cb).cs.lk_expressions@.last().expr < final(cb).cs.nodes@.len()
                &&& forall|w: Seq<nat>, f: Seq<nat>, ch: Seq<(nat, nat)>|
                    #[trigger] eval_node(
                        final(cb).cs.nodes@,
                        final(cb).cs.zero_constraints@.last().expr as int,
                        w,
                        f,
                        ch,
                    ) == e_mul(
                        wit_at(w, cfg.is_neg.id as int),
                        e_sub(wit_at(w, cfg.is_neg.id as int), (1nat, 0nat)),
                    )
                &&& forall|w: Seq<nat>, f: Seq<nat>, ch: Seq<(nat, nat)>|
                    #[trigger] eval_node(
                        final(cb).cs.nodes@,
                        final(cb).cs.eq_constraints@.last().lhs as int,
                        w,
                        f,
                        ch,
                    ) == eval_node(old(cb).cs.nodes@, top_limb as int, w, f, ch) && eval_node(
                        final(cb).cs.nodes@,
                        final(cb).cs.eq_constraints@.last().rhs as int,
                        w,
                        f,
                        ch,
                    ) == e_add(
                        e_add(
                            e_mul(wit_at(w, cfg.is_neg.id as int), (0x8000nat, 0nat)),
                            (0nat, 0nat),
                        ),
                        wit_at(w, cfg.rest.id as int),
                    )
                &&& forall|w: Seq<nat>, f: Seq<nat>, ch: Seq<(nat, nat)>|
                    ch.len() >= 2 ==> #[trigger] eval_node(
                        final(cb).cs.nodes@,
                        final(cb).cs.lk_expressions@.last().expr as int,
                        w,
                        f,
                        ch,
                    ) == crate::cs::lk_rlc(
                        1,
                        e_add(e_mul(wit_at(w, cfg.rest.id as int), (2nat, 0nat)), (0nat, 0nat)),
                        ch[0],
                        ch[1],
                    )
            },
    {
        cb.push_namespace("signed_extend");
        let ghost s0 = cb.cs;
        let is_neg = cb.create_witin("is_neg");
        let ne = cb.expr_wit(is_neg);
        let rest = cb.create_witin("rest");
        let re = cb.expr_wit(rest);
        let ghost s1 = cb.cs;
        let _ = cb.assert_bit("is_neg_bit", ne);
        let ghost s2 = cb.cs;
        let half = cb.expr_constant(Fp::from_u64(0x8000));
        let zero = cb.expr_constant(Fp::zero());
        let decomposed = cb.expr_scaled_sum(ne, half, zero);
        let ghost s3 = cb.cs;
        let with_rest = cb.expr_sum(decomposed, re);
        let ghost s4 = cb.cs;
        let _ = cb.require_equal("sign_decomposition", top_limb, with_rest);
        let two = cb.expr_constant(Fp::from_u64(2));
        let zero2 = cb.expr_constant(Fp::zero());
        let ghost s5 = cb.cs;
        let doubled = cb.expr_scaled_sum(re, two, zero2);
        let ghost s6 = cb.cs;
        let _ = cb.assert_ux::<16>("rest_fits", doubled);
        cb.pop_namespace();
        let cfg = SignedExtendConfig { is_neg, rest, is_neg_expr: ne };
        proof {
            lemma_small_mod(0x8000nat, FIELD_MODULUS as nat);
            lemma_small_mod(2nat, FIELD_MODULUS as nat);
            assert(forall|j: int| 0 <= j < s6.nodes@.len() ==> s6.nodes@[j] == cb.cs.nodes@[j]);
            assert(forall|j: int| 0 <= j < s2.nodes@.len() ==> s2.nodes@[j] == cb.cs.nodes@[j]);
            assert(cb.cs.zero_constraints@.last() == s2.zero_constraints@.last());
            assert(cb.cs.eq_constraints@.last().lhs == top_limb && cb.cs.eq_constraints@.last().rhs
                == with_rest);
            assert forall|w: Seq<nat>, f: Seq<nat>, ch: Seq<(nat, nat)>|
                #[trigger] eval_node(
                cb.cs.nodes@,
                cb.cs.zero_constraints@.last().expr as int,
                w,
                f,
                ch,
            ) == e_mul(
                wit_at(w, cfg.is_neg.id as int),
                e_sub(wit_at(w, cfg.is_neg.id as int), (1nat, 0nat)),
            ) by {
                assert(eval_node(s1.nodes@, ne as int, w, f, ch) == wit_at(w, is_neg.id as int));
                crate::expr::lemma_eval_extend_one(
                    s2.nodes@,
                    cb.cs.nodes@,
                    s2.zero_constraints@.last().expr as int,
                    w,
                    f,
                    ch,
                );
            }
            assert forall|w: Seq<nat>, f: Seq<nat>, ch: Seq<(nat, nat)>|
                #[trigger] eval_node(cb.cs.nodes@, top_limb as int, w, f, ch) == eval_node(
                s0.nodes@,
                top_limb as int,
                w,
                f,
                ch,
            ) && eval_node(cb.cs.nodes@, with_rest as int, w, f, ch) == e_add(
                e_add(e_mul(wit_at(w, cfg.is_neg.id as int), (0x8000nat, 0nat)), (0nat, 0nat)),
                wit_at(w, cfg.rest.id as int),
            ) by {
                crate::expr::lemma_eval_extend_one(s0.nodes@, cb.cs.nodes@, top_limb as int, w, f, ch);
                assert(eval_node(s3.nodes@, ne as int, w, f, ch) == wit_at(w, is_neg.id as int));
                assert(eval_node(s3.nodes@, re as int, w, f, ch) == wit_at(w, rest.id as int));
                assert(eval_node(s3.nodes@, half as int, w, f, ch) == (0x8000nat, 0nat));
                assert(eval_node(s3.nodes@, zero as int, w, f, ch) == (0nat, 0nat));
                assert(eval_node(s3.nodes@, decomposed as int, w, f, ch) == e_add(
                    e_mul(wit_at(w, is_neg.id as int), (0x8000nat, 0nat)),
                    (0nat, 0nat),
                ));
                crate::expr::lemma_eval_extend_one(s4.nodes@, cb.cs.nodes@, with_rest as int, w, f, ch);
            }
            assert forall|w: Seq<nat>, f: Seq<nat>, ch: Seq<(nat, nat)>| ch.len() >= 2
                implies #[trigger] eval_node(
                cb.cs.nodes@,
                cb.cs.lk_expressions@.last().expr as int,
                w,
                f,
                ch,
            ) == crate::cs::lk_rlc(
                1,
                e_add(e_mul(wit_at(w, cfg.rest.id as int), (2nat, 0nat)), (0nat, 0nat)),
                ch[0],
                ch[1],
            ) by {
                assert(eval_node(s5.nodes@, re as int, w, f, ch) == wit_at(w, rest.id as int));
                assert(eval_node(s5.nodes@, two as int, w, f, ch) == (2nat, 0nat));
                assert(eval_node(s5.nodes@, zero2 as int, w, f, ch) == (0nat, 0nat));
                assert(eval_node(s6.nodes@, doubled as int, w, f, ch) == e_add(
                    e_mul(wit_at(w, rest.id as int), (2nat, 0nat)),
                    (0nat, 0nat),
                ));
            }
        }
        Ok(cfg)
    }

    /// Fills the sign bit and remainder of the top limb for one row and
    /// reports the doubled remainder to the 16-bit table.
    pub fn assign_instance(
        &self,
        instance: &mut Vec<Fp>,
        lkm: &mut LkMultiplicity,
        top_limb: u64,
    ) -> (r: Result<(), ZKVMError>)
        requires
            self.wf(old(instance)@.len() as nat),
            top_limb < 65536,
        ensures
            r is Ok,
            final(instance)@.len() == old(instance)@.len(),
            forall|j: int|
                0 <= j < old(instance)@.len() && j != self.is_neg.id && j != self.rest.id
                    ==> final(instance)@[j] == old(instance)@[j],
            (final(instance)@[self.is_neg.id as int])@ == top_limb as nat / 0x8000,
            (final(instance)@[self.rest.id as int])@ == top_limb as nat % 0x8000,
            forall|v: u64|
                v != 2 * (top_limb % 0x8000) ==> final(lkm).u16_count(v) == old(lkm).u16_count(v),
            final(lkm).u16_count((2 * (top_limb % 0x8000)) as u64) == bumped(
                old(lkm).u16_count((2 * (top_limb % 0x8000)) as u64),
            ),
            forall|v: u64| final(lkm).u5_count(v) == old(lkm).u5_count(v),
    {
        let neg: u64 = top_limb >> 15;
        let rest: u64 = top_limb & 0x7fff;
        proof {
            lemma_u64_shr_is_div(top_limb, 15);
            lemma_low_bits_mask_values();
            lemma_u64_low_bits_mask_is_mod(top_limb, 15);
            assert(pow2(15) == 0x8000) by {
                vstd::arithmetic::power2::lemma2_to64();
            }
            lemma_small_mod(neg as nat, FIELD_MODULUS as nat);
            lemma_small_mod(rest as nat, FIELD_MODULUS as nat);
        }
        set_val(instance, self.is_neg, Fp::from_u64(neg));
        set_val(instance, self.rest, Fp::from_u64(rest));
        lkm.assert_ux::<16>(2 * rest);
        Ok(())
    }
}

/// The two 16-bit limbs of a 32-bit word, low first.
pub open spec fn word_limbs(v: u32) -> Seq<u64> {
    seq![(v as u64 % 0x10000) as u64, (v as u64 / 0x10000) as u64]
}

/// A concrete 32-bit operand value, with its 16-bit limb decomposition.
pub struct Value {
    pub val: u32,
}

impl Value {
    /// Wraps a value without reporting its limbs to any table.
    pub fn new_unchecked(val: u32) -> (r: Value)
        ensures
            r.val == val,
    {
        Value { val }
    }

    /// Wraps a value and reports both limbs to the 16-bit table.
    #[verifier::rlimit(60)]
    pub fn new(val: u32, lkm: &mut LkMultiplicity) -> (r: Value)
        ensures
            r.val == val,
            forall|v: u64|
                final(lkm).u16_count(v) == crate::lkm::multi_bumped(
                    old(lkm).u16_count(v),
                    crate::lkm::occurrences(word_limbs(val), v),
                ),
            forall|v: u64| final(lkm).u5_count(v) == old(lkm).u5_count(v),
    {
        let r = Value { val };
        lkm.assert_ux::<16>((val as u64) % 0x10000);
        lkm.assert_ux::<16>((val as u64) / 0x10000);
        proof {
            assert(word_limbs(val).drop_last() =~= seq![(val as u64 % 0x10000) as u64]);
            assert(seq![(val as u64 % 0x10000) as u64].drop_last() =~= Seq::<u64>::empty());
            assert forall|v: u64|
                lkm.u16_count(v) == crate::lkm::multi_bumped(
                    old(lkm).u16_count(v),
                    crate::lkm::occurrences(word_limbs(val), v),
                ) by {
                let c = old(lkm).u16_count(v);
                let lo = (val as u64 % 0x10000) as u64;
                let hi = (val as u64 / 0x10000) as u64;
                assert(crate::lkm::occurrences(Seq::<u64>::empty(), v) == 0);
                assert(crate::lkm::occurrences(seq![lo], v) == (if lo == v {
                    1nat
                } else {
                    0nat
                }));
                assert(crate::lkm::occurrences(word_limbs(val), v) == crate::lkm::occurrences(
                    seq![lo],
                    v,
                ) + (if hi == v {
                    1nat
                } else {
                    0nat
                }));
                assert(crate::lkm::multi_bumped(c, 0) == c);
                assert(crate::lkm::multi_bumped(c, 1) == crate::lkm::bumped(c));
                assert(crate::lkm::multi_bumped(c, 2) == crate::lkm::bumped(
                    crate::lkm::multi_bumped(c, 1),
                ));
            }
        }
        r
    }

    /// The value as a wide integer.
    pub fn as_u64(&self) -> (r: u64)
        ensures
            r == self.val as u64,
    {
        self.val as u64
    }

    /// The low 16-bit limb.
    pub fn limb_lo(&self) -> (r: u64)
        ensures
            r == self.val as u64 % 0x10000,
            r < 65536,
    {
        (self.val as u64) % 0x10000
    }

    /// The high 16-bit limb.
    pub fn limb_hi(&self) -> (r: u64)
        ensures
            r == self.val as u64 / 0x10000,
            r < 65536,
    {
        (self.val as u64) / 0x10000
    }
}

/// The carry witnesses of one multiply-add row: `d·o + r` computed limb by
/// limb, with the word-sized result and the two carries it produced.
pub struct MulAddWitness {
    pub dividend_lo: u64,
    pub dividend_hi: u64,
    pub c0: u64,
    pub c1_lo: u64,
    pub c1_hi: u64,
}

/// Computes the limb-by-limb multiply-add `d·o + r` over 16-bit limbs:
/// the low word of the result and each carry, exactly as the circuit's
/// carry constraints expect them.
pub fn mul_add_limbs(d: u32, o: u32, r: u32) -> (w: MulAddWitness)
    ensures
        w.c0 == ((d as u64 % 0x10000) * (o as u64 % 0x10000) + r as u64 % 0x10000) / 0x10000,
        w.dividend_lo == ((d as u64 % 0x10000) * (o as u64 % 0x10000) + r as u64 % 0x10000)
            % 0x10000,
        ({
            let t1 = (d as u64 % 0x10000) * (o as u64 / 0x10000) + (d as u64 / 0x10000) * (
            o as u64 % 0x10000) + r as u64 / 0x10000 + w.c0;
            &&& w.dividend_hi == t1 % 0x10000
            &&& w.c1_lo == (t1 / 0x10000) % 0x10000
            &&& w.c1_hi == (t1 / 0x10000) / 0x10000
        }),
        w.dividend_lo < 65536,
        w.dividend_hi < 65536,
        w.c0 < 65536,
        w.c1_lo < 65536,
        w.c1_hi <= 1,
        w.dividend_lo + 0x10000 * w.dividend_hi == (d as u64 * o as u64 + r as u64) % 0x1_0000_0000,
{
    let d0: u64 = (d as u64) % 0x10000;
    let d1: u64 = (d as u64) / 0x10000;
    let o0: u64 = (o as u64) % 0x10000;
    let o1: u64 = (o as u64) / 0x10000;
    let r0: u64 = (r as u64) % 0x10000;
    let r1: u64 = (r as u64) / 0x10000;
    proof {
        assert(d0 * o0 + r0 < 0x1_0000_0000_0000 && d0 * o1 + d1 * o0 + r1 + 0x10000
            < 0x1_0000_0000_0000) by (nonlinear_arith)
            requires
                d0 < 0x10000,
                d1 < 0x10000,
                o0 < 0x10000,
                o1 < 0x10000,
                r0 < 0x10000,
                r1 < 0x10000,
        ;
    }
    let t0: u64 = d0 * o0 + r0;
    let lo: u64 = t0 % 0x10000;
    let c0: u64 = t0 / 0x10000;
    let t1: u64 = d0 * o1 + d1 * o0 + r1 + c0;
    let hi: u64 = t1 % 0x10000;
    let c1: u64 = t1 / 0x10000;
    let c1_lo: u64 = c1 % 0x10000;
    let c1_hi: u64 = c1 / 0x10000;
    proof {
        assert(t0 < 0x1_0000_0000 && c0 < 0x10000) by (nonlinear_arith)
            requires
                d0 < 0x10000,
                o0 < 0x10000,
                r0 < 0x10000,
                t0 == d0 * o0 + r0,
                c0 == t0 / 0x10000,
        ;
        assert(t1 < 0x2_0000_0000 && c1 < 0x20000 && c1 / 0x10000 <= 1) by (nonlinear_arith)
            requires
                d0 < 0x10000,
                d1 < 0x10000,
                o0 < 0x10000,
                o1 < 0x10000,
                r1 < 0x10000,
                c0 < 0x10000,
                t1 == d0 * o1 + d1 * o0 + r1 + c0,
                c1 == t1 / 0x10000,
        ;
        lemma_mul_add_words(
            d as int,
            o as int,
            r as int,
            t0 as int,
            t1 as int,
            lo as int,
            hi as int,
            c1 as int,
        );
    }
    MulAddWitness { dividend_lo: lo, dividend_hi: hi, c0, c1_lo, c1_hi }
}

/// The low word of a limb-by-limb multiply-add equals the wrapped product:
/// `lo + 2^16·hi == (d·o + r) mod 2^32` when the limbs and carries satisfy
/// the two carry equations.
proof fn lemma_mul_add_words(
    d: int,
    o: int,
    r: int,
    t0: int,
    t1: int,
    lo: int,
    hi: int,
    c1: int,
)
    requires
        0 <= d < 0x1_0000_0000,
        0 <= o < 0x1_0000_0000,
        0 <= r < 0x1_0000_0000,
        t0 == (d % 0x10000) * (o % 0x10000) + r % 0x10000,
        t1 == (d % 0x10000) * (o / 0x10000) + (d / 0x10000) * (o % 0x10000) + r / 0x10000 + t0
            / 0x10000,
        lo == t0 % 0x10000,
        hi == t1 % 0x10000,
        c1 == t1 / 0x10000,
    ensures
        lo + 0x10000 * hi == (d * o + r) % 0x1_0000_0000,
{
    let d0 = d % 0x10000;
    let d1 = d / 0x10000;
    let o0 = o % 0x10000;
    let o1 = o / 0x10000;
    let r0 = r % 0x10000;
    let r1 = r / 0x10000;
    vstd::arithmetic::div_mod::lemma_fundamental_div_mod(d, 0x10000);
    vstd::arithmetic::div_mod::lemma_fundamental_div_mod(o, 0x10000);
    vstd::arithmetic::div_mod::lemma_fundamental_div_mod(r, 0x10000);
    vstd::arithmetic::div_mod::lemma_fundamental_div_mod(t0, 0x10000);
    vstd::arithmetic::div_mod::lemma_fundamental_div_mod(t1, 0x10000);
    assert(d * o + r == lo + 0x10000 * hi + 0x1_0000_0000 * (d1 * o1 + c1)) by (nonlinear_arith)
        requires
            d == 0x10000 * d1 + d0,
            o == 0x10000 * o1 + o0,
            r == 0x10000 * r1 + r0,
            t0 == d0 * o0 + r0,
            t0 == 0x10000 * (t0 / 0x10000) + lo,
            t1 == d0 * o1 + d1 * o0 + r1 + t0 / 0x10000,
            t1 == 0x10000 * c1 + hi,
    ;
    assert(0 <= lo + 0x10000 * hi < 0x1_0000_0000) by (nonlinear_arith)
        requires
            0 <= lo < 0x10000,
            0 <= hi < 0x10000,
    ;
    vstd::arithmetic::div_mod::lemma_mod_multiples_vanish(
        d1 * o1 + c1,
        lo + 0x10000 * hi,
        0x1_0000_0000,
    );
    vstd::arithmetic::div_mod::lemma_small_mod((lo + 0x10000 * hi) as nat, 0x1_0000_0000);
}

} // verus!
