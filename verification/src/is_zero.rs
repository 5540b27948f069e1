//! The zero-test gadget: a boolean output column that is `1` exactly when a
//! given expression is zero, tied down by a multiplicative-inverse witness.

use vstd::prelude::*;

use crate::cs::{cs_extends, CircuitBuilder};
use crate::error::ZKVMError;
use crate::expr::{eval_node, ExprNode, WitIn};
use crate::is_lt::wit_at;
use crate::field::{e_mul, e_sub, fmul, Fp};
use crate::witness::set_val;

verus! {

/// The configuration of one zero-test: the boolean output column, the
/// inverse-or-zero helper column, and the output's expression handle.
pub struct IsZeroConfig {
    pub is_zero: WitIn,
    pub inverse: WitIn,
    pub is_zero_expr: usize,
}

impl IsZeroConfig {
    /// The boolean output expression: `1` exactly when the tested value is
    /// zero, on any row satisfying the gadget's constraints.
    pub fn expr(&self) -> (r: usize)
        ensures
            r == self.is_zero_expr,
    {
        self.is_zero_expr
    }

    /// The columns this gadget owns fit a row of `n` columns.
    pub open spec fn wf(self, n: nat) -> bool {
        &&& self.is_zero.id < n
        &&& self.inverse.id < n
        &&& self.is_zero.id != self.inverse.id
    }

    /// Registers the zero-test of `x`: fresh columns `is_zero` and `inverse`
    /// and the two constraints `is_zero·x = 0` and `x·inverse = 1 − is_zero`.
    pub fn construct_circuit(cb: &mut CircuitBuilder, name: &str, x: usize) -> (r: Result<
        IsZeroConfig,
        ZKVMError,
    >)
        requires
            x < old(cb).cs.nodes@.len(),
        ensures
            r matches Ok(cfg) ==> {
                &&& cs_extends(final(cb).cs, old(cb).cs)
                &&& final(cb).cs.witin_names@.len() == old(cb).cs.witin_names@.len() + 2
                &&& cfg.is_zero.id == old(cb).cs.witin_names@.len()
                &&& cfg.inverse.id == old(cb).cs.witin_names@.len() + 1
                &&& cfg.wf(final(cb).cs.witin_names@.len() as nat)
                &&& cfg.is_zero_expr < final(cb).cs.nodes@.len()
                &&& final(cb).cs.nodes@[cfg.is_zero_expr as int] == ExprNode::Wit(cfg.is_zero.id)
                &&& final(cb).cs.eq_constraints@ == old(cb).cs.eq_constraints@
                &&& final(cb).cs.lk_expressions@ == old(cb).cs.lk_expressions@
                &&& final(cb).cs.lk_tables@ == old(cb).cs.lk_tables@
                &&& final(cb).cs.zero_constraints@.len() == old(cb).cs.zero_constraints@.len() + 2
                &&& final(cb).cs.zero_constraints@[final(cb).cs.zero_constraints@.len() - 2].expr
                    < final(cb).cs.nodes@.len()
                &&& final(cb).cs.zero_constraints@.last().expr < final(cb).cs.nodes@.len()
                &&& forall|w: Seq<nat>, f: Seq<nat>, ch: Seq<(nat, nat)>|
                    {
                        &&& #[trigger] eval_node(
                            final(cb).cs.nodes@,
                            final(cb).cs.zero_constraints@[final(cb).cs.zero_constraints@.len()
                                - 2].expr as int,
                            w,
                            f,
                            ch,
                        ) == e_mul(
                            wit_at(w, cfg.is_zero.id as int),
                            eval_node(old(cb).cs.nodes@, x as int, w, f, ch),
                        )
                        &&& eval_node(
                            final(cb).cs.nodes@,
                            final(cb).cs.zero_constraints@.last().expr as int,
                            w,
                            f,
                            ch,
                        ) == e_sub(
                            e_mul(
                                eval_node(old(cb).cs.nodes@, x as int, w, f, ch),
                                wit_at(w, cfg.inverse.id as int),
                            ),
                            e_sub((1nat, 0nat), wit_at(w, cfg.is_zero.id as int)),
                        )
                    }
            },
            r is Ok,
    {
        cb.push_namespace(name);
        let ghost s0 = cb.cs;
        let is_zero = cb.create_witin("is_zero");
        let inverse = cb.create_witin("inverse");
        let iz = cb.expr_wit(is_zero);
        let ghost s1 = cb.cs;
        let inv = cb.expr_wit(inverse);
        let ghost s2 = cb.cs;
        let prod_zx = cb.expr_product(iz, x);
        let res1 = cb.require_zero("is_zero is 0 when x is not 0", prod_zx);
        if res1.is_err() {
            cb.pop_namespace();
            return res1.map(|_v| IsZeroConfig { is_zero, inverse, is_zero_expr: iz });
        }
        let ghost s3 = cb.cs;
        let prod_xi = cb.expr_product(x, inv);
        let ghost s4 = cb.cs;
        let one = cb.expr_constant(Fp::one());
        let ghost s5 = cb.cs;
        let one_minus = cb.expr_sub(one, iz);
        let ghost s6 = cb.cs;
        let tie = cb.expr_sub(prod_xi, one_minus);
        let res2 = cb.require_zero("inverse is x.invert() when x is not 0", tie);
        cb.pop_namespace();
        let cfg = IsZeroConfig { is_zero, inverse, is_zero_expr: iz };
        proof {
            crate::expr::lemma_eval_extend(s0.nodes@, s2.nodes@);
            crate::expr::lemma_eval_extend(s2.nodes@, s3.nodes@);
            crate::expr::lemma_eval_extend(s3.nodes@, s4.nodes@);
            crate::expr::lemma_eval_extend(s4.nodes@, s5.nodes@);
            crate::expr::lemma_eval_extend(s5.nodes@, s6.nodes@);
            crate::expr::lemma_eval_extend(s6.nodes@, cb.cs.nodes@);
            assert forall|w: Seq<nat>, f: Seq<nat>, ch: Seq<(nat, nat)>| {
                &&& #[trigger] eval_node(
                    cb.cs.nodes@,
                    cb.cs.zero_constraints@[cb.cs.zero_constraints@.len() - 2].expr as int,
                    w,
                    f,
                    ch,
                ) == e_mul(
                    wit_at(w, cfg.is_zero.id as int),
                    eval_node(s0.nodes@, x as int, w, f, ch),
                )
                &&& eval_node(cb.cs.nodes@, cb.cs.zero_constraints@.last().expr as int, w, f, ch)
                    == e_sub(
                    e_mul(
                        eval_node(s0.nodes@, x as int, w, f, ch),
                        wit_at(w, cfg.inverse.id as int),
                    ),
                    e_sub((1nat, 0nat), wit_at(w, cfg.is_zero.id as int)),
                )
            } by {
                let xv = eval_node(s0.nodes@, x as int, w, f, ch);
                assert(eval_node(s1.nodes@, iz as int, w, f, ch) == wit_at(
                    w,
                    cfg.is_zero.id as int,
                ));
                assert(eval_node(s2.nodes@, inv as int, w, f, ch) == wit_at(
                    w,
                    cfg.inverse.id as int,
                ));
                assert(eval_node(s2.nodes@, iz as int, w, f, ch) == wit_at(
                    w,
                    cfg.is_zero.id as int,
                ));
                assert(eval_node(s3.nodes@, prod_zx as int, w, f, ch) == e_mul(
                    wit_at(w, cfg.is_zero.id as int),
                    xv,
                ));
                assert(eval_node(s4.nodes@, prod_xi as int, w, f, ch) == e_mul(
                    xv,
                    wit_at(w, cfg.inverse.id as int),
                ));
                assert(eval_node(s5.nodes@, one as int, w, f, ch) == (1nat, 0nat));
                assert(eval_node(s6.nodes@, one_minus as int, w, f, ch) == e_sub(
                    (1nat, 0nat),
                    wit_at(w, cfg.is_zero.id as int),
                ));
                assert(eval_node(s6.nodes@, prod_xi as int, w, f, ch) == e_mul(
                    xv,
                    wit_at(w, cfg.inverse.id as int),
                ));
            }
        }
        match res2 {
            Ok(_) => Ok(cfg),
            Err(e) => Err(e),
        }
    }

    /// Fills the two columns for one row: `is_zero` with the zero flag of
    /// `x` and `inverse` with the inverse witness `inv_value(x)`.
    pub fn assign_instance(&self, instance: &mut Vec<Fp>, x: Fp) -> (r: Result<(), ZKVMError>)
        requires
            self.wf(old(instance)@.len() as nat),
        ensures
            r is Ok,
            final(instance)@.len() == old(instance)@.len(),
            forall|j: int|
                0 <= j < old(instance)@.len() && j != self.is_zero.id && j != self.inverse.id
                    ==> final(instance)@[j] == old(instance)@[j],
            (final(instance)@[self.is_zero.id as int])@ == (if x@ == 0 {
                1nat
            } else {
                0nat
            }),
            (final(instance)@[self.inverse.id as int])@ == crate::field::inv_value(x@),
    {
        let inv = x.inverse();
        let flag = if x.as_u64() == 0 {
            Fp::one()
        } else {
            Fp::zero()
        };
        set_val(instance, self.is_zero, flag);
        set_val(instance, self.inverse, inv);
        Ok(())
    }
}

} // verus!
