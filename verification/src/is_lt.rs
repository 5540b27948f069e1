//! Less-than gadgets. The core trick: for `lhs, rhs < 2^(16·L)` the identity
//! `lhs − rhs = Σ diff_i·2^(16·i) − is_lt·2^(16·L)`, with every `diff_i`
//! range-checked to 16 bits and `is_lt` boolean, forces `is_lt = 1` exactly
//! when `lhs < rhs`.

use vstd::prelude::*;

use crate::cs::{cs_extends, lk_rlc, qualified, CircuitBuilder};
use crate::error::ZKVMError;
use crate::expr::{eval_node, WitIn};
use crate::field::{e_mul, e_sub, Fp, FIELD_MODULUS};
use crate::lkm::{multi_bumped, occurrences, LkMultiplicity};
use crate::uint::{SignedExtendConfig, UInt, UINT_LIMBS};
use crate::witness::set_val;

verus! {

use vstd::arithmetic::power2::pow2;
use vstd::arithmetic::power2::lemma_pow2_adds;
use vstd::arithmetic::power2::lemma_pow2_pos;
use vstd::arithmetic::div_mod::lemma_small_mod;
use vstd::arithmetic::div_mod::lemma_mod_breakdown;
use vstd::bits::lemma_u64_shr_is_div;
use vstd::bits::lemma_u64_shl_is_mul;
use vstd::bits::lemma_u64_pow2_no_overflow;
use vstd::bits::lemma_u64_low_bits_mask_is_mod;
use vstd::bits::lemma_low_bits_mask_values;

/// The borrow-rule difference: `lhs − rhs`, plus `2^(16·l)` when that would
/// be negative.
pub open spec fn diff_value(l: nat, lhs: nat, rhs: nat) -> nat
    recommends
        lhs < pow2(16 * l),
        rhs < pow2(16 * l),
{
    if lhs < rhs {
        (pow2(16 * l) + lhs - rhs) as nat
    } else {
        (lhs - rhs) as nat
    }
}

/// The `i`-th 16-bit limb of `d`.
pub open spec fn limb(d: nat, i: nat) -> nat {
    (d / pow2(16 * i)) % 65536
}

/// The value reconstructed from the low `l` 16-bit limbs of `d`.
pub open spec fn limbs_sum(d: nat, l: nat) -> nat
    decreases l,
{
    if l == 0 {
        0
    } else {
        limbs_sum(d, (l - 1) as nat) + limb(d, (l - 1) as nat) * pow2(16 * (l - 1) as nat)
    }
}

/// The sequence of the low `l` limbs of `d`.
pub open spec fn limb_seq(d: nat, l: nat) -> Seq<u64> {
    Seq::new(l, |i: int| (limb(d, i as nat) % 0x10000) as u64)
}

/// Slicing reconstructs the residue: the low `l` limbs of `d` sum to
/// `d mod 2^(16·l)`.
pub proof fn lemma_limbs_sum_is_mod(d: nat, l: nat)
    ensures
        limbs_sum(d, l) == d % pow2(16 * l),
    decreases l,
{
    if l == 0 {
        assert(pow2(0) == 1) by {
            vstd::arithmetic::power2::lemma2_to64();
        }
        assert(16 * l == 0);
        vstd::arithmetic::div_mod::lemma_mod_bound(d as int, 1);
        assert(limbs_sum(d, l) == 0);
        assert(d % pow2(16 * l) == 0);
    } else {
        let l1 = (l - 1) as nat;
        lemma_limbs_sum_is_mod(d, l1);
        lemma_pow2_pos(16 * l1);
        lemma_pow2_pos(16);
        lemma_pow2_adds(16 * l1, 16);
        assert(16 * l == 16 * l1 + 16);
        lemma_mod_breakdown(d as int, pow2(16 * l1) as int, pow2(16) as int);
        assert(pow2(16) == 65536) by {
            vstd::arithmetic::power2::lemma2_to64();
        }
        assert(16 * l == 16 * l1 + 16);
        assert(pow2(16 * l) == pow2(16 * l1) * pow2(16));
        assert(d as int % (pow2(16 * l1) * pow2(16)) as int == pow2(16 * l1) * ((d / pow2(16 * l1))
            % pow2(16)) + d % pow2(16 * l1));
        assert(limbs_sum(d, l) == limbs_sum(d, l1) + limb(d, l1) * pow2(16 * l1));
        assert(limb(d, l1) == (d / pow2(16 * l1)) % 65536);
        vstd::arithmetic::mul::lemma_mul_is_commutative(
            limb(d, l1) as int,
            pow2(16 * l1) as int,
        );
        assert(limbs_sum(d, l) == d % pow2(16 * l));
    }
}

/// Limb round-trip, the heart of the gadget: for any width `l ≥ 1` and any
/// `lhs, rhs` below `2^(16·l)`, the borrow-rule difference is exactly
/// `lhs − rhs + (lhs < rhs ? 2^(16·l) : 0)`, it fits the width, every 16-bit
/// limb is below `65536`, and the limbs reconstruct it exactly.
pub proof fn lemma_limb_round_trip(l: nat, lhs: nat, rhs: nat)
    requires
        1 <= l,
        lhs < pow2(16 * l),
        rhs < pow2(16 * l),
    ensures
        diff_value(l, lhs, rhs) as int == lhs - rhs + (if lhs < rhs {
            pow2(16 * l) as int
        } else {
            0
        }),
        diff_value(l, lhs, rhs) < pow2(16 * l),
        forall|i: nat| i < l ==> #[trigger] limb(diff_value(l, lhs, rhs), i) < 65536,
        limbs_sum(diff_value(l, lhs, rhs), l) == diff_value(l, lhs, rhs),
{
    lemma_pow2_pos(16 * l);
    let d = diff_value(l, lhs, rhs);
    assert forall|i: nat| i < l implies #[trigger] limb(d, i) < 65536 by {
        lemma_pow2_pos(16 * i);
    }
    lemma_limbs_sum_is_mod(d, l);
    lemma_small_mod(d, pow2(16 * l));
}

/// The boolean flag in the gadget identity is forced: if bounded limbs
/// reconstruct a difference `d` with `lhs − rhs = d − b·2^(16·l)` and `b` is
/// boolean, then `b = 1` exactly when `lhs < rhs`.
pub proof fn lemma_is_lt_determined(l: nat, lhs: nat, rhs: nat, d: nat, b: nat)
    requires
        1 <= l,
        lhs < pow2(16 * l),
        rhs < pow2(16 * l),
        d < pow2(16 * l),
        b <= 1,
        lhs - rhs == d - b * pow2(16 * l),
    ensures
        (b == 1) <==> (lhs < rhs),
        b == (if lhs < rhs {
            1nat
        } else {
            0nat
        }),
{
    lemma_pow2_pos(16 * l);
    if b == 0 {
        assert(lhs - rhs == d >= 0);
    } else {
        assert(lhs - rhs == d - pow2(16 * l) < 0);
    }
}

/// The gadget identity over the field forces the flag: if a row satisfies
/// `lhs − rhs = d − b·2^(16·l)` as residues, with `lhs`, `rhs` and the limb
/// reconstruction `d` all below `2^(16·l)` and `b` boolean, then both sides
/// are equal as integers, `d` is exactly the borrow-rule difference, and
/// `b = 1` exactly when `lhs < rhs`. Residues cannot hide a wrap-around:
/// both sides lie within `(−2^(16·l), 2^(16·l))` and `2^(16·l+1)` is below
/// the field order for every supported width.
pub proof fn lemma_field_identity_forces_flag(l: nat, lhs: nat, rhs: nat, d: nat, b: nat)
    requires
        1 <= l <= 3,
        lhs < pow2(16 * l),
        rhs < pow2(16 * l),
        d < pow2(16 * l),
        b <= 1,
        crate::field::fsub(lhs, rhs) == crate::field::fsub(
            d,
            crate::field::fmul(b, pow2(16 * l)),
        ),
    ensures
        d == diff_value(l, lhs, rhs),
        (b == 1) <==> (lhs < rhs),
{
    let p = FIELD_MODULUS as int;
    assert(pow2(16 * l) <= pow2(48)) by {
        if 16 * l < 48 {
            vstd::arithmetic::power2::lemma_pow2_strictly_increases(16 * l, 48);
        }
    }
    assert(pow2(48) < FIELD_MODULUS as nat && 2 * pow2(48) < FIELD_MODULUS as nat) by {
        vstd::arithmetic::power2::lemma2_to64();
        vstd::arithmetic::power2::lemma2_to64_rest();
    }
    let m = pow2(16 * l);
    lemma_pow2_pos(16 * l);
    // The scaled borrow is already reduced.
    assert(crate::field::fmul(b, m) == b * m) by {
        if b == 0 {
            assert(0 * m == 0) by (nonlinear_arith);
            lemma_small_mod(0, FIELD_MODULUS as nat);
        } else {
            assert(1 * m == m) by (nonlinear_arith);
            lemma_small_mod(m, FIELD_MODULUS as nat);
        }
    }
    assert(b * m <= m) by (nonlinear_arith)
        requires
            b <= 1,
            m >= 0,
    ;
    let x = lhs - rhs;
    let y = d - b * m;
    assert(0 - m < x < m);
    assert(0 - m < y < m);
    // Congruent and within (−p, p) of each other: equal as integers.
    vstd::arithmetic::div_mod::lemma_mod_equivalence(x, y, p);
    assert((x - y) % p == 0);
    if x != y {
        if x > y {
            assert(0 < x - y < p);
            lemma_small_mod((x - y) as nat, FIELD_MODULUS as nat);
        } else {
            assert(0 - p < x - y < 0);
            vstd::arithmetic::div_mod::lemma_mod_add_multiples_vanish(x - y, p);
            lemma_small_mod((x - y + p) as nat, FIELD_MODULUS as nat);
        }
        assert(false);
    }
    lemma_is_lt_determined(l, lhs, rhs, d, b);
    if lhs < rhs {
        assert(b == 1);
        assert(b * m == m) by (nonlinear_arith)
            requires
                b == 1,
        ;
    } else {
        assert(b == 0);
        assert(b * m == 0) by (nonlinear_arith)
            requires
                b == 0,
        ;
    }
}

/// The configuration of the core less-than gadget: one fresh 16-bit-checked
/// limb column per width unit.
pub struct InnerLtConfig {
    pub diff: Vec<WitIn>,
    pub max_num_u16_limbs: usize,
}

/// The value of a witness reference on a row, as the evaluator sees it.
pub open spec fn wit_at(w: Seq<nat>, i: int) -> (nat, nat) {
    if 0 <= i < w.len() {
        (w[i], 0nat)
    } else {
        (0nat, 0nat)
    }
}

/// The value of the gadget's limb-sum expression on a row: limb columns
/// `base … base+l−1` combined with powers of `2^16`.
pub open spec fn limbs_eval(w: Seq<nat>, base: int, l: nat) -> (nat, nat)
    decreases l,
{
    if l == 0 {
        (0nat, 0nat)
    } else {
        crate::field::e_add(
            e_mul(
                wit_at(w, base + l - 1),
                (pow2(16 * (l - 1) as nat) % (FIELD_MODULUS as nat), 0nat),
            ),
            limbs_eval(w, base, (l - 1) as nat),
        )
    }
}

impl InnerLtConfig {
    /// `2^(16·max_num_u16_limbs)`: one past the largest representable value.
    pub fn range(max_num_u16_limbs: usize) -> (r: u64)
        requires
            max_num_u16_limbs <= 3,
        ensures
            r as nat == pow2((16 * max_num_u16_limbs) as nat),
    {
        proof {
            lemma_u64_pow2_no_overflow((16 * max_num_u16_limbs) as nat);
            lemma_u64_shl_is_mul(1u64, (16 * max_num_u16_limbs) as u64);
        }
        1u64 << (16 * max_num_u16_limbs)
    }

    /// The gadget's columns fit a row of `n` columns and its limb vector
    /// matches its width.
    pub open spec fn wf(self, n: nat) -> bool {
        &&& self.diff@.len() == self.max_num_u16_limbs
        &&& 1 <= self.max_num_u16_limbs <= 3
        &&& forall|i: int| 0 <= i < self.diff@.len() ==> (#[trigger] self.diff@[i]).id < n
        &&& forall|i: int, j: int|
            0 <= i < j < self.diff@.len() ==> self.diff@[i].id != self.diff@[j].id
    }

    /// Registers the core less-than identity
    /// `lhs − rhs = Σ diff_i·2^(16·i) − is_lt_expr·2^(16·L)` with every
    /// `diff_i` a fresh 16-bit range-checked column.
    #[verifier::rlimit(100)]
    pub fn construct_circuit(
        cb: &mut CircuitBuilder,
        name: &str,
        lhs: usize,
        rhs: usize,
        is_lt_expr: usize,
        max_num_u16_limbs: usize,
    ) -> (r: Result<InnerLtConfig, ZKVMError>)
        requires
            1 <= max_num_u16_limbs <= 3,
            lhs < old(cb).cs.nodes@.len(),
            rhs < old(cb).cs.nodes@.len(),
            is_lt_expr < old(cb).cs.nodes@.len(),
        ensures
            r is Ok,
            r matches Ok(cfg) ==> {
                &&& cs_extends(final(cb).cs, old(cb).cs)
                &&& final(cb).cs.witin_names@.len() == old(cb).cs.witin_names@.len()
                    + max_num_u16_limbs
                &&& cfg.max_num_u16_limbs == max_num_u16_limbs
                &&& cfg.diff@.len() == max_num_u16_limbs
                &&& forall|i: int|
                    0 <= i < max_num_u16_limbs ==> (#[trigger] cfg.diff@[i]).id == old(
                        cb,
                    ).cs.witin_names@.len() + i
                &&& cfg.wf(final(cb).cs.witin_names@.len() as nat)
                &&& final(cb).cs.zero_constraints@ == old(cb).cs.zero_constraints@
                &&& final(cb).cs.lk_tables@ == old(cb).cs.lk_tables@
                &&& final(cb).cs.lk_expressions@.len() == old(cb).cs.lk_expressions@.len()
                    + max_num_u16_limbs
                &&& forall|i: int, w: Seq<nat>, f: Seq<nat>, ch: Seq<(nat, nat)>|
                    0 <= i < max_num_u16_limbs && ch.len() >= 2 ==> #[trigger] eval_node(
                        final(cb).cs.nodes@,
                        final(cb).cs.lk_expressions@[old(cb).cs.lk_expressions@.len() + i].expr
                            as int,
                        w,
                        f,
                        ch,
                    ) == lk_rlc(
                        1,
                        wit_at(w, old(cb).cs.witin_names@.len() + i),
                        ch[0],
                        ch[1],
                    )
                &&& final(cb).cs.eq_constraints@.len() == old(cb).cs.eq_constraints@.len() + 1
                &&& final(cb).cs.eq_constraints@.last().lhs < final(cb).cs.nodes@.len()
                &&& final(cb).cs.eq_constraints@.last().rhs < final(cb).cs.nodes@.len()
                &&& final(cb).cs.eq_constraints@.last().name@ == qualified(old(cb).cs.ns@, name@)
                &&& forall|w: Seq<nat>, f: Seq<nat>, ch: Seq<(nat, nat)>|
                    #[trigger] eval_node(
                        final(cb).cs.nodes@,
                        final(cb).cs.eq_constraints@.last().lhs as int,
                        w,
                        f,
                        ch,
                    ) == e_sub(
                        eval_node(old(cb).cs.nodes@, lhs as int, w, f, ch),
                        eval_node(old(cb).cs.nodes@, rhs as int, w, f, ch),
                    )
                &&& forall|w: Seq<nat>, f: Seq<nat>, ch: Seq<(nat, nat)>|
                    #[trigger] eval_node(
                        final(cb).cs.nodes@,
                        final(cb).cs.eq_constraints@.last().rhs as int,
                        w,
                        f,
                        ch,
                    ) == e_sub(
                        limbs_eval(w, old(cb).cs.witin_names@.len() as int, max_num_u16_limbs as nat),
                        e_mul(
                            eval_node(old(cb).cs.nodes@, is_lt_expr as int, w, f, ch),
                            (pow2((16 * max_num_u16_limbs) as nat), 0nat),
                        ),
                    )
            },
    {
        let ghost s0 = cb.cs;
        let ghost base = cb.cs.witin_names@.len() as int;
        let mut diff: Vec<WitIn> = Vec::new();
        let mut diff_exprs: Vec<usize> = Vec::new();
        let mut i: usize = 0;
        while i < max_num_u16_limbs
            invariant
                1 <= max_num_u16_limbs <= 3,
                i <= max_num_u16_limbs,
                base == s0.witin_names@.len(),
                cs_extends(cb.cs, s0),
                cb.cs.witin_names@.len() == base + i,
                cb.cs.zero_constraints@ == s0.zero_constraints@,
                cb.cs.eq_constraints@ == s0.eq_constraints@,
                cb.cs.lk_tables@ == s0.lk_tables@,
                cb.cs.lk_expressions@.len() == s0.lk_expressions@.len() + i,
                diff@.len() == i,
                diff_exprs@.len() == i,
                forall|j: int| 0 <= j < i ==> (#[trigger] diff@[j]).id == base + j,
                forall|j: int| 0 <= j < i ==> #[trigger] diff_exprs@[j] < cb.cs.nodes@.len(),
                forall|j: int|
                    0 <= j < i ==> cb.cs.nodes@[#[trigger] diff_exprs@[j] as int]
                        == crate::expr::ExprNode::Wit(diff@[j].id),
                forall|j: int|
                    0 <= j < i ==> (#[trigger] cb.cs.lk_expressions@[s0.lk_expressions@.len()
                        + j]).expr < cb.cs.nodes@.len(),
                forall|j: int, w: Seq<nat>, f: Seq<nat>, ch: Seq<(nat, nat)>|
                    0 <= j < i && ch.len() >= 2 ==> #[trigger] eval_node(
                        cb.cs.nodes@,
                        cb.cs.lk_expressions@[s0.lk_expressions@.len() + j].expr as int,
                        w,
                        f,
                        ch,
                    ) == lk_rlc(1, wit_at(w, base + j), ch[0], ch[1]),
            decreases max_num_u16_limbs - i,
        {
            let limb_name = if i == 0 {
                "diff_0"
            } else if i == 1 {
                "diff_1"
            } else {
                "diff_2"
            };
            cb.push_namespace(limb_name);
            let ghost pre = cb.cs;
            let wit = cb.create_witin(limb_name);
            let we = cb.expr_wit(wit);
            let ghost mid = cb.cs;
            let _ = cb.assert_ux::<16>(name, we);
            cb.pop_namespace();
            proof {
                assert(cb.cs.nodes@[we as int] == crate::expr::ExprNode::Wit(wit.id));
                assert forall|j: int| 0 <= j < i + 1 implies (#[trigger] cb.cs.lk_expressions@[
                    s0.lk_expressions@.len() + j]).expr < cb.cs.nodes@.len() by {
                    if j < i {
                        assert(cb.cs.lk_expressions@[s0.lk_expressions@.len() + j]
                            == pre.lk_expressions@[s0.lk_expressions@.len() + j]);
                    } else {
                        assert(cb.cs.lk_expressions@[s0.lk_expressions@.len() + j]
                            == cb.cs.lk_expressions@.last());
                    }
                }
                assert forall|w: Seq<nat>, f: Seq<nat>, ch: Seq<(nat, nat)>| ch.len() >= 2
                    implies #[trigger] eval_node(
                    cb.cs.nodes@,
                    cb.cs.lk_expressions@[s0.lk_expressions@.len() + i].expr as int,
                    w,
                    f,
                    ch,
                ) == lk_rlc(1, wit_at(w, base + i), ch[0], ch[1]) by {
                    assert(eval_node(mid.nodes@, we as int, w, f, ch) == wit_at(w, base + i));
                }
                assert forall|j: int, w: Seq<nat>, f: Seq<nat>, ch: Seq<(nat, nat)>|
                    0 <= j < i && ch.len() >= 2 implies #[trigger] eval_node(
                    cb.cs.nodes@,
                    cb.cs.lk_expressions@[s0.lk_expressions@.len() + j].expr as int,
                    w,
                    f,
                    ch,
                ) == lk_rlc(1, wit_at(w, base + j), ch[0], ch[1]) by {
                    let h = pre.lk_expressions@[s0.lk_expressions@.len() + j].expr;
                    assert(cb.cs.lk_expressions@[s0.lk_expressions@.len() + j]
                        == pre.lk_expressions@[s0.lk_expressions@.len() + j]);
                    assert(h < pre.nodes@.len());
                    assert(eval_node(pre.nodes@, h as int, w, f, ch) == lk_rlc(
                        1,
                        wit_at(w, base + j),
                        ch[0],
                        ch[1],
                    ));
                    crate::expr::lemma_eval_extend_one(pre.nodes@, cb.cs.nodes@, h as int, w, f, ch);
                }
            }
            diff.push(wit);
            diff_exprs.push(we);
            i = i + 1;
        }
        let ghost s_limbs = cb.cs;
        let mut acc = cb.expr_constant(Fp::zero());
        let mut i2: usize = 0;
        while i2 < max_num_u16_limbs
            invariant
                1 <= max_num_u16_limbs <= 3,
                i2 <= max_num_u16_limbs,
                base == s0.witin_names@.len(),
                cs_extends(cb.cs, s_limbs),
                cs_extends(s_limbs, s0),
                crate::cs::only_nodes_changed(cb.cs, s_limbs),
                diff_exprs@.len() == max_num_u16_limbs,
                forall|j: int|
                    0 <= j < max_num_u16_limbs ==> #[trigger] diff_exprs@[j]
                        < s_limbs.nodes@.len(),
                diff@.len() == max_num_u16_limbs,
                forall|j: int| 0 <= j < max_num_u16_limbs ==> (#[trigger] diff@[j]).id == base + j,
                forall|j: int|
                    0 <= j < max_num_u16_limbs ==> cb.cs.nodes@[#[trigger] diff_exprs@[j] as int]
                        == crate::expr::ExprNode::Wit(diff@[j].id),
                acc < cb.cs.nodes@.len(),
                forall|w: Seq<nat>, f: Seq<nat>, ch: Seq<(nat, nat)>|
                    #[trigger] eval_node(cb.cs.nodes@, acc as int, w, f, ch) == limbs_eval(
                        w,
                        base,
                        i2 as nat,
                    ),
            decreases max_num_u16_limbs - i2,
        {
            let ghost before = cb.cs;
            let pw = cb.expr_constant(Fp::from_u64(1u64 << (16 * i2)));
            let ghost with_pw = cb.cs;
            let next = cb.expr_scaled_sum(diff_exprs[i2], pw, acc);
            proof {
                lemma_u64_pow2_no_overflow((16 * i2) as nat);
                lemma_u64_shl_is_mul(1u64, (16 * i2) as u64);
                assert forall|w: Seq<nat>, f: Seq<nat>, ch: Seq<(nat, nat)>|
                    #[trigger] eval_node(cb.cs.nodes@, next as int, w, f, ch) == limbs_eval(
                    w,
                    base,
                    (i2 + 1) as nat,
                ) by {
                    assert(eval_node(with_pw.nodes@, pw as int, w, f, ch) == (
                        pow2((16 * i2) as nat) % (FIELD_MODULUS as nat),
                        0nat,
                    ));
                    assert(diff_exprs@[i2 as int] < with_pw.nodes@.len());
                    assert(with_pw.nodes@[diff_exprs@[i2 as int] as int]
                        == crate::expr::ExprNode::Wit(diff@[i2 as int].id));
                    assert(eval_node(with_pw.nodes@, diff_exprs@[i2 as int] as int, w, f, ch)
                        == wit_at(w, base + i2));
                    assert(eval_node(before.nodes@, acc as int, w, f, ch) == limbs_eval(
                        w,
                        base,
                        i2 as nat,
                    ));
                    crate::expr::lemma_eval_extend_one(
                        before.nodes@,
                        with_pw.nodes@,
                        acc as int,
                        w,
                        f,
                        ch,
                    );
                }
            }
            acc = next;
            i2 = i2 + 1;
        }
        let ghost s_sum = cb.cs;
        let range_const = cb.expr_constant(Fp::from_u64(Self::range(max_num_u16_limbs)));
        let ghost s_rc = cb.cs;
        let zero_const = cb.expr_constant(Fp::zero());
        let ghost s_zc = cb.cs;
        let borrow = cb.expr_scaled_sum(is_lt_expr, range_const, zero_const);
        let ghost s_borrow = cb.cs;
        let rhs_full = cb.expr_sub(acc, borrow);
        let ghost s_rhs = cb.cs;
        let lhs_minus = cb.expr_sub(lhs, rhs);
        let ghost s_lhs = cb.cs;
        let res_eq = cb.require_equal(name, lhs_minus, rhs_full);
        let cfg = InnerLtConfig { diff, max_num_u16_limbs };
        proof {
            assert(forall|j: int|
                0 <= j < s0.nodes@.len() ==> s0.nodes@[j] == s_lhs.nodes@[j]);
            assert(forall|j: int|
                0 <= j < s_sum.nodes@.len() ==> s_sum.nodes@[j] == s_lhs.nodes@[j]);
            assert(pow2((16 * max_num_u16_limbs) as nat) < FIELD_MODULUS as nat) by {
                vstd::arithmetic::power2::lemma_pow2_strictly_increases(
                    (16 * max_num_u16_limbs) as nat,
                    63,
                );
                vstd::arithmetic::power2::lemma2_to64_rest();
            }
            lemma_small_mod(pow2((16 * max_num_u16_limbs) as nat), FIELD_MODULUS as nat);
            assert forall|i3: int, w: Seq<nat>, f: Seq<nat>, ch: Seq<(nat, nat)>|
                0 <= i3 < max_num_u16_limbs && ch.len() >= 2 implies #[trigger] eval_node(
                s_lhs.nodes@,
                s_lhs.lk_expressions@[s0.lk_expressions@.len() + i3].expr as int,
                w,
                f,
                ch,
            ) == lk_rlc(1, wit_at(w, base + i3), ch[0], ch[1]) by {
                let h = s_limbs.lk_expressions@[s0.lk_expressions@.len() + i3].expr;
                assert(s_lhs.lk_expressions@[s0.lk_expressions@.len() + i3]
                    == s_limbs.lk_expressions@[s0.lk_expressions@.len() + i3]);
                assert(h < s_limbs.nodes@.len());
                assert(eval_node(s_limbs.nodes@, h as int, w, f, ch) == lk_rlc(
                    1,
                    wit_at(w, base + i3),
                    ch[0],
                    ch[1],
                ));
                crate::expr::lemma_eval_extend_one(s_limbs.nodes@, s_lhs.nodes@, h as int, w, f, ch);
            }
            assert forall|w: Seq<nat>, f: Seq<nat>, ch: Seq<(nat, nat)>|
                #[trigger] eval_node(s_lhs.nodes@, lhs_minus as int, w, f, ch) == e_sub(
                eval_node(s0.nodes@, lhs as int, w, f, ch),
                eval_node(s0.nodes@, rhs as int, w, f, ch),
            ) by {
                crate::expr::lemma_eval_extend_one(s0.nodes@, s_rhs.nodes@, lhs as int, w, f, ch);
                crate::expr::lemma_eval_extend_one(s0.nodes@, s_rhs.nodes@, rhs as int, w, f, ch);
            }
            assert forall|w: Seq<nat>, f: Seq<nat>, ch: Seq<(nat, nat)>|
                #[trigger] eval_node(s_lhs.nodes@, rhs_full as int, w, f, ch) == e_sub(
                limbs_eval(w, base, max_num_u16_limbs as nat),
                e_mul(
                    eval_node(s0.nodes@, is_lt_expr as int, w, f, ch),
                    (pow2((16 * max_num_u16_limbs) as nat), 0nat),
                ),
            ) by {
                let iv = eval_node(s0.nodes@, is_lt_expr as int, w, f, ch);
                crate::expr::lemma_eval_extend_one(s0.nodes@, s_zc.nodes@, is_lt_expr as int, w, f, ch);
                assert(eval_node(s_zc.nodes@, range_const as int, w, f, ch) == (
                    pow2((16 * max_num_u16_limbs) as nat),
                    0nat,
                ));
                assert(eval_node(s_zc.nodes@, zero_const as int, w, f, ch) == (0nat, 0nat));
                assert(eval_node(s_borrow.nodes@, borrow as int, w, f, ch) == crate::field::e_add(
                    e_mul(iv, (pow2((16 * max_num_u16_limbs) as nat), 0nat)),
                    (0nat, 0nat),
                ));
                crate::field::lemma_e_add_zero_right(
                    e_mul(iv, (pow2((16 * max_num_u16_limbs) as nat), 0nat)),
                );
                assert(eval_node(s_sum.nodes@, acc as int, w, f, ch) == limbs_eval(
                    w,
                    base,
                    max_num_u16_limbs as nat,
                ));
                crate::expr::lemma_eval_extend_one(s_sum.nodes@, s_borrow.nodes@, acc as int, w, f, ch);
                crate::expr::lemma_eval_extend_one(s_rhs.nodes@, s_lhs.nodes@, rhs_full as int, w, f, ch);
            }
        }
        match res_eq {
            Ok(_) => Ok(cfg),
            Err(e) => Err(e),
        }
    }

    /// Fills the limb columns for one row by the borrow rule and reports
    /// each limb to the 16-bit multiplicity table.
    pub fn assign_instance(
        &self,
        instance: &mut Vec<Fp>,
        lkm: &mut LkMultiplicity,
        lhs: u64,
        rhs: u64,
    ) -> (r: Result<(), ZKVMError>)
        requires
            self.wf(old(instance)@.len() as nat),
            lhs < pow2((16 * self.max_num_u16_limbs) as nat),
            rhs < pow2((16 * self.max_num_u16_limbs) as nat),
        ensures
            r is Ok,
            final(instance)@.len() == old(instance)@.len(),
            forall|j: int|
                0 <= j < old(instance)@.len() && (forall|i: int|
                    0 <= i < self.diff@.len() ==> j != (#[trigger] self.diff@[i]).id)
                    ==> final(instance)@[j] == old(instance)@[j],
            forall|i: int|
                0 <= i < self.diff@.len() ==> (#[trigger] final(instance)@[self.diff@[i].id as int])@
                    == limb(
                    diff_value(self.max_num_u16_limbs as nat, lhs as nat, rhs as nat),
                    i as nat,
                ),
            forall|v: u64|
                final(lkm).u16_count(v) == multi_bumped(
                    old(lkm).u16_count(v),
                    occurrences(
                        limb_seq(
                            diff_value(self.max_num_u16_limbs as nat, lhs as nat, rhs as nat),
                            self.max_num_u16_limbs as nat,
                        ),
                        v,
                    ),
                ),
            forall|v: u64| final(lkm).u5_count(v) == old(lkm).u5_count(v),
    {
        let l = self.max_num_u16_limbs;
        let diff = cal_lt_diff(lhs < rhs, l, lhs, rhs);
        let ghost d = diff_value(l as nat, lhs as nat, rhs as nat);
        let mut i: usize = 0;
        proof {
            assert(limb_seq(d, 0nat) =~= Seq::<u64>::empty());
        }
        while i < l
            invariant
                self.wf(old(instance)@.len() as nat),
                l == self.max_num_u16_limbs,
                i <= l,
                diff as nat == d,
                instance@.len() == old(instance)@.len(),
                forall|j: int|
                    0 <= j < old(instance)@.len() && (forall|i2: int|
                        0 <= i2 < i ==> j != (#[trigger] self.diff@[i2]).id) ==> instance@[j]
                        == old(instance)@[j],
                forall|i2: int|
                    0 <= i2 < i ==> (#[trigger] instance@[self.diff@[i2].id as int])@ == limb(
                        d,
                        i2 as nat,
                    ),
                forall|v: u64|
                    lkm.u16_count(v) == multi_bumped(
                        old(lkm).u16_count(v),
                        occurrences(limb_seq(d, i as nat), v),
                    ),
                forall|v: u64| lkm.u5_count(v) == old(lkm).u5_count(v),
            decreases l - i,
        {
            let val = (diff >> ((16 * i) as u64)) & 0xffff;
            proof {
                lemma_u64_shr_is_div(diff, (16 * i) as u64);
                lemma_low_bits_mask_values();
                lemma_u64_low_bits_mask_is_mod(diff >> ((16 * i) as u64), 16);
                assert(pow2(16) == 65536) by {
                    vstd::arithmetic::power2::lemma2_to64();
                }
                assert(val as nat == limb(d, i as nat));
            }
            lkm.assert_ux::<16>(val);
            set_val(instance, self.diff[i], Fp::from_u64(val));
            proof {
                assert(val < 65536) by {
                    lemma_pow2_pos((16 * i) as nat);
                }
                lemma_small_mod(val as nat, FIELD_MODULUS as nat);
                assert(limb_seq(d, (i + 1) as nat).drop_last() =~= limb_seq(d, i as nat));
                assert(limb_seq(d, (i + 1) as nat).last() == val);
            }
            i = i + 1;
        }
        Ok(())
    }
}

/// The borrow-rule difference as executable arithmetic: what each limb
/// column is sliced from.
pub fn cal_lt_diff(is_lt: bool, max_num_u16_limbs: usize, lhs: u64, rhs: u64) -> (r: u64)
    requires
        1 <= max_num_u16_limbs <= 3,
        is_lt == (lhs < rhs),
        lhs < pow2((16 * max_num_u16_limbs) as nat),
        rhs < pow2((16 * max_num_u16_limbs) as nat),
    ensures
        r as nat == diff_value(max_num_u16_limbs as nat, lhs as nat, rhs as nat),
{
    if is_lt {
        let range = InnerLtConfig::range(max_num_u16_limbs);
        range - (rhs - lhs)
    } else {
        lhs - rhs
    }
}


/// The computed less-than gadget: a fresh boolean output column `is_lt`
/// wired into the core identity, readable as an expression elsewhere.
pub struct IsLtConfig {
    pub is_lt: WitIn,
    pub config: InnerLtConfig,
    pub is_lt_expr: usize,
}

impl IsLtConfig {
    /// The boolean output expression: `1` exactly when `lhs < rhs` on any
    /// row satisfying the gadget's constraints.
    pub fn expr(&self) -> (r: usize)
        ensures
            r == self.is_lt_expr,
    {
        self.is_lt_expr
    }

    /// The gadget's columns fit a row of `n` columns.
    pub open spec fn wf(self, n: nat) -> bool {
        &&& self.is_lt.id < n
        &&& self.config.wf(n)
        &&& forall|i: int|
            0 <= i < self.config.diff@.len() ==> (#[trigger] self.config.diff@[i]).id
                != self.is_lt.id
    }

    /// Registers a fresh boolean `is_lt` column and the core identity tying
    /// it to `lhs < rhs`.
    pub fn construct_circuit(
        cb: &mut CircuitBuilder,
        name: &str,
        lhs: usize,
        rhs: usize,
        max_num_u16_limbs: usize,
    ) -> (r: Result<IsLtConfig, ZKVMError>)
        requires
            1 <= max_num_u16_limbs <= 3,
            lhs < old(cb).cs.nodes@.len(),
            rhs < old(cb).cs.nodes@.len(),
        ensures
            r is Ok,
            r matches Ok(cfg) ==> {
                &&& cs_extends(final(cb).cs, old(cb).cs)
                &&& final(cb).cs.witin_names@.len() == old(cb).cs.witin_names@.len() + 1
                    + max_num_u16_limbs
                &&& cfg.is_lt.id == old(cb).cs.witin_names@.len()
                &&& cfg.config.max_num_u16_limbs == max_num_u16_limbs
                &&& forall|i: int|
                    0 <= i < max_num_u16_limbs ==> (#[trigger] cfg.config.diff@[i]).id == old(
                        cb,
                    ).cs.witin_names@.len() + 1 + i
                &&& cfg.wf(final(cb).cs.witin_names@.len() as nat)
                &&& cfg.is_lt_expr < final(cb).cs.nodes@.len()
                &&& final(cb).cs.nodes@[cfg.is_lt_expr as int] == crate::expr::ExprNode::Wit(
                    cfg.is_lt.id,
                )
                &&& final(cb).cs.lk_tables@ == old(cb).cs.lk_tables@
                &&& final(cb).cs.lk_expressions@.len() == old(cb).cs.lk_expressions@.len()
                    + max_num_u16_limbs
                &&& final(cb).cs.zero_constraints@.len() == old(cb).cs.zero_constraints@.len() + 1
                &&& final(cb).cs.zero_constraints@.last().expr < final(cb).cs.nodes@.len()
                &&& forall|w: Seq<nat>, f: Seq<nat>, ch: Seq<(nat, nat)>|
                    #[trigger] eval_node(
                        final(cb).cs.nodes@,
                        final(cb).cs.zero_constraints@.last().expr as int,
                        w,
                        f,
                        ch,
                    ) == e_mul(
                        wit_at(w, cfg.is_lt.id as int),
                        e_sub(wit_at(w, cfg.is_lt.id as int), (1nat, 0nat)),
                    )
                &&& final(cb).cs.eq_constraints@.len() == old(cb).cs.eq_constraints@.len() + 1
                &&& final(cb).cs.eq_constraints@.last().lhs < final(cb).cs.nodes@.len()
                &&& final(cb).cs.eq_constraints@.last().rhs < final(cb).cs.nodes@.len()
                &&& forall|w: Seq<nat>, f: Seq<nat>, ch: Seq<(nat, nat)>|
                    #[trigger] eval_node(
                        final(cb).cs.nodes@,
                        final(cb).cs.eq_constraints@.last().lhs as int,
                        w,
                        f,
                        ch,
                    ) == e_sub(
                        eval_node(old(cb).cs.nodes@, lhs as int, w, f, ch),
                        eval_node(old(cb).cs.nodes@, rhs as int, w, f, ch),
                    )
                &&& forall|w: Seq<nat>, f: Seq<nat>, ch: Seq<(nat, nat)>|
                    #[trigger] eval_node(
                        final(cb).cs.nodes@,
                        final(cb).cs.eq_constraints@.last().rhs as int,
                        w,
                        f,
                        ch,
                    ) == e_sub(
                        limbs_eval(w, old(cb).cs.witin_names@.len() as int + 1, max_num_u16_limbs as nat),
                        e_mul(
                            wit_at(w, cfg.is_lt.id as int),
                            (pow2((16 * max_num_u16_limbs) as nat), 0nat),
                        ),
                    )
            },
    {
        cb.push_namespace("is_lt");
        let ghost s0 = cb.cs;
        let is_lt = cb.create_witin(name);
        let we = cb.expr_wit(is_lt);
        let ghost s1 = cb.cs;
        let res_bit = cb.assert_bit("is_lt_bit", we);
        let ghost s2 = cb.cs;
        let inner = InnerLtConfig::construct_circuit(cb, name, lhs, rhs, we, max_num_u16_limbs);
        cb.pop_namespace();
        let cfg = match inner {
            Ok(c) => IsLtConfig { is_lt, config: c, is_lt_expr: we },
            Err(e) => {
                return Err(e);
            },
        };
        proof {
            assert(forall|j: int| 0 <= j < s1.nodes@.len() ==> s1.nodes@[j] == final(cb).cs.nodes@[j]);
            assert(s1.nodes@[we as int] == crate::expr::ExprNode::Wit(is_lt.id));
            assert forall|w: Seq<nat>, f: Seq<nat>, ch: Seq<(nat, nat)>|
                #[trigger] eval_node(
                cb.cs.nodes@,
                cb.cs.zero_constraints@.last().expr as int,
                w,
                f,
                ch,
            ) == e_mul(
                wit_at(w, cfg.is_lt.id as int),
                e_sub(wit_at(w, cfg.is_lt.id as int), (1nat, 0nat)),
            ) by {
                assert(eval_node(s1.nodes@, we as int, w, f, ch) == wit_at(w, is_lt.id as int));
                assert(cb.cs.zero_constraints@.last() == s2.zero_constraints@.last());
                assert(cb.cs.zero_constraints@.last().expr < s2.nodes@.len());
                crate::expr::lemma_eval_extend_one(
                    s2.nodes@,
                    cb.cs.nodes@,
                    cb.cs.zero_constraints@.last().expr as int,
                    w,
                    f,
                    ch,
                );
            }
            assert forall|w: Seq<nat>, f: Seq<nat>, ch: Seq<(nat, nat)>|
                #[trigger] eval_node(
                cb.cs.nodes@,
                cb.cs.eq_constraints@.last().lhs as int,
                w,
                f,
                ch,
            ) == e_sub(
                eval_node(s0.nodes@, lhs as int, w, f, ch),
                eval_node(s0.nodes@, rhs as int, w, f, ch),
            ) by {
                crate::expr::lemma_eval_extend_one(s0.nodes@, s2.nodes@, lhs as int, w, f, ch);
                crate::expr::lemma_eval_extend_one(s0.nodes@, s2.nodes@, rhs as int, w, f, ch);
            }
            assert forall|w: Seq<nat>, f: Seq<nat>, ch: Seq<(nat, nat)>|
                #[trigger] eval_node(
                cb.cs.nodes@,
                cb.cs.eq_constraints@.last().rhs as int,
                w,
                f,
                ch,
            ) == e_sub(
                limbs_eval(w, s0.witin_names@.len() as int + 1, max_num_u16_limbs as nat),
                e_mul(
                    wit_at(w, cfg.is_lt.id as int),
                    (pow2((16 * max_num_u16_limbs) as nat), 0nat),
                ),
            ) by {
                assert(eval_node(s2.nodes@, we as int, w, f, ch) == wit_at(w, is_lt.id as int));
            }
        }
        match res_bit {
            Ok(_) => Ok(cfg),
            Err(e) => Err(e),
        }
    }

    /// Fills the boolean flag with `lhs < rhs` and the limb columns by the
    /// borrow rule, reporting each limb to the 16-bit table.
    pub fn assign_instance(
        &self,
        instance: &mut Vec<Fp>,
        lkm: &mut LkMultiplicity,
        lhs: u64,
        rhs: u64,
    ) -> (r: Result<(), ZKVMError>)
        requires
            self.wf(old(instance)@.len() as nat),
            lhs < pow2((16 * self.config.max_num_u16_limbs) as nat),
            rhs < pow2((16 * self.config.max_num_u16_limbs) as nat),
        ensures
            r is Ok,
            final(instance)@.len() == old(instance)@.len(),
            (final(instance)@[self.is_lt.id as int])@ == (if lhs < rhs {
                1nat
            } else {
                0nat
            }),
            forall|j: int|
                0 <= j < old(instance)@.len() && j != self.is_lt.id && (forall|i: int|
                    0 <= i < self.config.diff@.len() ==> j != (#[trigger] self.config.diff@[i]).id)
                    ==> final(instance)@[j] == old(instance)@[j],
            forall|i: int|
                0 <= i < self.config.diff@.len()
                    ==> (#[trigger] final(instance)@[self.config.diff@[i].id as int])@ == limb(
                    diff_value(self.config.max_num_u16_limbs as nat, lhs as nat, rhs as nat),
                    i as nat,
                ),
            forall|v: u64|
                final(lkm).u16_count(v) == multi_bumped(
                    old(lkm).u16_count(v),
                    occurrences(
                        limb_seq(
                            diff_value(
                                self.config.max_num_u16_limbs as nat,
                                lhs as nat,
                                rhs as nat,
                            ),
                            self.config.max_num_u16_limbs as nat,
                        ),
                        v,
                    ),
                ),
            forall|v: u64| final(lkm).u5_count(v) == old(lkm).u5_count(v),
    {
        let flag = if lhs < rhs {
            Fp::one()
        } else {
            Fp::zero()
        };
        set_val(instance, self.is_lt, flag);
        let r = self.config.assign_instance(instance, lkm, lhs, rhs);
        r
    }

    /// Fills the boolean flag with the signed order of two 32-bit values and
    /// the limb columns by the borrow rule over their signed difference.
    pub fn assign_instance_signed(
        &self,
        instance: &mut Vec<Fp>,
        lkm: &mut LkMultiplicity,
        lhs: i32,
        rhs: i32,
    ) -> (r: Result<(), ZKVMError>)
        requires
            self.wf(old(instance)@.len() as nat),
            self.config.max_num_u16_limbs == 2,
        ensures
            r is Ok,
            final(instance)@.len() == old(instance)@.len(),
            (final(instance)@[self.is_lt.id as int])@ == (if lhs < rhs {
                1nat
            } else {
                0nat
            }),
            forall|i: int|
                0 <= i < self.config.diff@.len()
                    ==> (#[trigger] final(instance)@[self.config.diff@[i].id as int])@ == limb(
                    signed_diff(lhs as int, rhs as int),
                    i as nat,
                ),
            forall|v: u64|
                final(lkm).u16_count(v) == multi_bumped(
                    old(lkm).u16_count(v),
                    occurrences(limb_seq(signed_diff(lhs as int, rhs as int), 2), v),
                ),
            forall|v: u64| final(lkm).u5_count(v) == old(lkm).u5_count(v),
    {
        let flag = if lhs < rhs {
            Fp::one()
        } else {
            Fp::zero()
        };
        set_val(instance, self.is_lt, flag);
        let r = self.config.assign_instance_signed(instance, lkm, lhs, rhs);
        r
    }
}

/// An unconditional less-than assertion: the core identity with the flag
/// hard-wired to the constant one, so every satisfying row has `lhs < rhs`.
pub struct AssertLTConfig(pub InnerLtConfig);

impl AssertLTConfig {
    /// The gadget's columns fit a row of `n` columns.
    pub open spec fn wf(self, n: nat) -> bool {
        self.0.wf(n)
    }

    /// Registers the core identity with the flag fixed to one.
    pub fn construct_circuit(
        cb: &mut CircuitBuilder,
        name: &str,
        lhs: usize,
        rhs: usize,
        max_num_u16_limbs: usize,
    ) -> (r: Result<AssertLTConfig, ZKVMError>)
        requires
            1 <= max_num_u16_limbs <= 3,
            lhs < old(cb).cs.nodes@.len(),
            rhs < old(cb).cs.nodes@.len(),
        ensures
            r is Ok,
            r matches Ok(cfg) ==> {
                &&& cs_extends(final(cb).cs, old(cb).cs)
                &&& final(cb).cs.witin_names@.len() == old(cb).cs.witin_names@.len()
                    + max_num_u16_limbs
                &&& cfg.0.max_num_u16_limbs == max_num_u16_limbs
                &&& forall|i: int|
                    0 <= i < max_num_u16_limbs ==> (#[trigger] cfg.0.diff@[i]).id == old(
                        cb,
                    ).cs.witin_names@.len() + i
                &&& cfg.wf(final(cb).cs.witin_names@.len() as nat)
                &&& final(cb).cs.lk_tables@ == old(cb).cs.lk_tables@
                &&& final(cb).cs.zero_constraints@ == old(cb).cs.zero_constraints@
                &&& final(cb).cs.lk_expressions@.len() == old(cb).cs.lk_expressions@.len()
                    + max_num_u16_limbs
                &&& final(cb).cs.eq_constraints@.len() == old(cb).cs.eq_constraints@.len() + 1
                &&& forall|w: Seq<nat>, f: Seq<nat>, ch: Seq<(nat, nat)>|
                    #[trigger] eval_node(
                        final(cb).cs.nodes@,
                        final(cb).cs.eq_constraints@.last().lhs as int,
                        w,
                        f,
                        ch,
                    ) == e_sub(
                        eval_node(old(cb).cs.nodes@, lhs as int, w, f, ch),
                        eval_node(old(cb).cs.nodes@, rhs as int, w, f, ch),
                    )
                &&& forall|w: Seq<nat>, f: Seq<nat>, ch: Seq<(nat, nat)>|
                    #[trigger] eval_node(
                        final(cb).cs.nodes@,
                        final(cb).cs.eq_constraints@.last().rhs as int,
                        w,
                        f,
                        ch,
                    ) == e_sub(
                        limbs_eval(w, old(cb).cs.witin_names@.len() as int, max_num_u16_limbs as nat),
                        e_mul((1nat, 0nat), (pow2((16 * max_num_u16_limbs) as nat), 0nat)),
                    )
            },
    {
        cb.push_namespace("assert_lt");
        let ghost s0 = cb.cs;
        let one = cb.expr_constant(Fp::one());
        let ghost s1 = cb.cs;
        let inner = InnerLtConfig::construct_circuit(cb, name, lhs, rhs, one, max_num_u16_limbs);
        cb.pop_namespace();
        let cfg = match inner {
            Ok(c) => AssertLTConfig(c),
            Err(e) => {
                return Err(e);
            },
        };
        proof {
            assert forall|w: Seq<nat>, f: Seq<nat>, ch: Seq<(nat, nat)>|
                #[trigger] eval_node(
                cb.cs.nodes@,
                cb.cs.eq_constraints@.last().lhs as int,
                w,
                f,
                ch,
            ) == e_sub(
                eval_node(s0.nodes@, lhs as int, w, f, ch),
                eval_node(s0.nodes@, rhs as int, w, f, ch),
            ) by {
                crate::expr::lemma_eval_extend_one(s0.nodes@, s1.nodes@, lhs as int, w, f, ch);
                crate::expr::lemma_eval_extend_one(s0.nodes@, s1.nodes@, rhs as int, w, f, ch);
            }
            assert forall|w: Seq<nat>, f: Seq<nat>, ch: Seq<(nat, nat)>|
                #[trigger] eval_node(
                cb.cs.nodes@,
                cb.cs.eq_constraints@.last().rhs as int,
                w,
                f,
                ch,
            ) == e_sub(
                limbs_eval(w, s0.witin_names@.len() as int, max_num_u16_limbs as nat),
                e_mul((1nat, 0nat), (pow2((16 * max_num_u16_limbs) as nat), 0nat)),
            ) by {
                assert(eval_node(s1.nodes@, one as int, w, f, ch) == (1nat, 0nat));
            }
        }
        Ok(cfg)
    }

    /// Fills the limb columns for one row by the borrow rule.
    pub fn assign_instance(
        &self,
        instance: &mut Vec<Fp>,
        lkm: &mut LkMultiplicity,
        lhs: u64,
        rhs: u64,
    ) -> (r: Result<(), ZKVMError>)
        requires
            self.wf(old(instance)@.len() as nat),
            lhs < pow2((16 * self.0.max_num_u16_limbs) as nat),
            rhs < pow2((16 * self.0.max_num_u16_limbs) as nat),
        ensures
            r is Ok,
            final(instance)@.len() == old(instance)@.len(),
            forall|j: int|
                0 <= j < old(instance)@.len() && (forall|i: int|
                    0 <= i < self.0.diff@.len() ==> j != (#[trigger] self.0.diff@[i]).id)
                    ==> final(instance)@[j] == old(instance)@[j],
            forall|i: int|
                0 <= i < self.0.diff@.len()
                    ==> (#[trigger] final(instance)@[self.0.diff@[i].id as int])@ == limb(
                    diff_value(self.0.max_num_u16_limbs as nat, lhs as nat, rhs as nat),
                    i as nat,
                ),
            forall|v: u64|
                final(lkm).u16_count(v) == multi_bumped(
                    old(lkm).u16_count(v),
                    occurrences(
                        limb_seq(
                            diff_value(self.0.max_num_u16_limbs as nat, lhs as nat, rhs as nat),
                            self.0.max_num_u16_limbs as nat,
                        ),
                        v,
                    ),
                ),
            forall|v: u64| final(lkm).u5_count(v) == old(lkm).u5_count(v),
    {
        let r = self.0.assign_instance(instance, lkm, lhs, rhs);
        r
    }
}


/// The borrow-rule difference of two 32-bit two's-complement values: their
/// signed difference, plus `2^32` when negative.
pub open spec fn signed_diff(lhs: int, rhs: int) -> nat {
    if lhs < rhs {
        (pow2(32) - (rhs - lhs)) as nat
    } else {
        (lhs - rhs) as nat
    }
}

/// The unsigned word carrying a 32-bit two's-complement value.
pub open spec fn as_word(x: int) -> nat {
    if x >= 0 {
        x as nat
    } else {
        (x + 0x1_0000_0000) as nat
    }
}

impl InnerLtConfig {
    /// Fills the limb columns for one row from two signed 32-bit values by
    /// the borrow rule over their signed difference.
    pub fn assign_instance_signed(
        &self,
        instance: &mut Vec<Fp>,
        lkm: &mut LkMultiplicity,
        lhs: i32,
        rhs: i32,
    ) -> (r: Result<(), ZKVMError>)
        requires
            self.wf(old(instance)@.len() as nat),
            self.max_num_u16_limbs == 2,
        ensures
            r is Ok,
            final(instance)@.len() == old(instance)@.len(),
            forall|j: int|
                0 <= j < old(instance)@.len() && (forall|i: int|
                    0 <= i < self.diff@.len() ==> j != (#[trigger] self.diff@[i]).id)
                    ==> final(instance)@[j] == old(instance)@[j],
            forall|i: int|
                0 <= i < self.diff@.len()
                    ==> (#[trigger] final(instance)@[self.diff@[i].id as int])@ == limb(
                    signed_diff(lhs as int, rhs as int),
                    i as nat,
                ),
            forall|v: u64|
                final(lkm).u16_count(v) == multi_bumped(
                    old(lkm).u16_count(v),
                    occurrences(limb_seq(signed_diff(lhs as int, rhs as int), 2), v),
                ),
            forall|v: u64| final(lkm).u5_count(v) == old(lkm).u5_count(v),
    {
        proof {
            assert(pow2(32) == 0x1_0000_0000) by {
                vstd::arithmetic::power2::lemma2_to64();
            }
        }
        let diff: u64 = if lhs < rhs {
            let range = Self::range(2);
            let gap: u64 = ((rhs as i64) - (lhs as i64)) as u64;
            range - gap
        } else {
            ((lhs as i64) - (rhs as i64)) as u64
        };
        let ghost d = signed_diff(lhs as int, rhs as int);
        let mut i: usize = 0;
        proof {
            assert(limb_seq(d, 0nat) =~= Seq::<u64>::empty());
        }
        while i < 2
            invariant
                self.wf(old(instance)@.len() as nat),
                self.max_num_u16_limbs == 2,
                i <= 2,
                diff as nat == d,
                instance@.len() == old(instance)@.len(),
                forall|j: int|
                    0 <= j < old(instance)@.len() && (forall|i2: int|
                        0 <= i2 < i ==> j != (#[trigger] self.diff@[i2]).id) ==> instance@[j]
                        == old(instance)@[j],
                forall|i2: int|
                    0 <= i2 < i ==> (#[trigger] instance@[self.diff@[i2].id as int])@ == limb(
                        d,
                        i2 as nat,
                    ),
                forall|v: u64|
                    lkm.u16_count(v) == multi_bumped(
                        old(lkm).u16_count(v),
                        occurrences(limb_seq(d, i as nat), v),
                    ),
                forall|v: u64| lkm.u5_count(v) == old(lkm).u5_count(v),
            decreases 2 - i,
        {
            let val = (diff >> ((16 * i) as u64)) & 0xffff;
            proof {
                lemma_u64_shr_is_div(diff, (16 * i) as u64);
                lemma_low_bits_mask_values();
                lemma_u64_low_bits_mask_is_mod(diff >> ((16 * i) as u64), 16);
                assert(pow2(16) == 65536) by {
                    vstd::arithmetic::power2::lemma2_to64();
                }
                assert(val as nat == limb(d, i as nat));
            }
            lkm.assert_ux::<16>(val);
            set_val(instance, self.diff[i], Fp::from_u64(val));
            proof {
                assert(val < 65536) by {
                    lemma_pow2_pos((16 * i) as nat);
                }
                lemma_small_mod(val as nat, FIELD_MODULUS as nat);
                assert(limb_seq(d, (i + 1) as nat).drop_last() =~= limb_seq(d, i as nat));
                assert(limb_seq(d, (i + 1) as nat).last() == val);
            }
            i = i + 1;
        }
        Ok(())
    }
}

/// What the signed comparison's constraints say on one row valuation, for a
/// comparison whose sign-gadget columns start at column `b`, whose sign
/// bit-checks start at zero-constraint index `oz` and whose sign
/// decompositions start at assert-equal index `oe` (the core identity
/// follows at `oe + 2`), with `flagv` the value of the comparison flag:
/// both sign flags boolean, both top limbs decomposed as
/// `top = is_neg·2^15 + rest`, and the core borrow identity over the
/// signed field readings `value − is_neg·2^32` of both operands.
pub open spec fn signed_cmp_row_constraints(
    post: crate::cs::ConstraintSystem,
    pre_nodes: Seq<crate::expr::ExprNode>,
    lhs: UInt,
    rhs: UInt,
    b: int,
    oz: int,
    oe: int,
    flagv: (nat, nat),
    w: Seq<nat>,
    f: Seq<nat>,
    ch: Seq<(nat, nat)>,
) -> bool {
    let m_lhs = e_sub(
        eval_node(pre_nodes, lhs.value_expr as int, w, f, ch),
        crate::field::e_add(e_mul(wit_at(w, b), (0x1_0000_0000nat, 0nat)), (0nat, 0nat)),
    );
    let m_rhs = e_sub(
        eval_node(pre_nodes, rhs.value_expr as int, w, f, ch),
        crate::field::e_add(e_mul(wit_at(w, b + 2), (0x1_0000_0000nat, 0nat)), (0nat, 0nat)),
    );
    &&& eval_node(post.nodes@, post.zero_constraints@[oz].expr as int, w, f, ch) == e_mul(
        wit_at(w, b),
        e_sub(wit_at(w, b), (1nat, 0nat)),
    )
    &&& eval_node(post.nodes@, post.zero_constraints@[oz + 1].expr as int, w, f, ch) == e_mul(
        wit_at(w, b + 2),
        e_sub(wit_at(w, b + 2), (1nat, 0nat)),
    )
    &&& eval_node(post.nodes@, post.eq_constraints@[oe].lhs as int, w, f, ch) == eval_node(
        pre_nodes,
        lhs.limb_exprs@[1] as int,
        w,
        f,
        ch,
    )
    &&& eval_node(post.nodes@, post.eq_constraints@[oe].rhs as int, w, f, ch)
        == crate::field::e_add(
        crate::field::e_add(e_mul(wit_at(w, b), (0x8000nat, 0nat)), (0nat, 0nat)),
        wit_at(w, b + 1),
    )
    &&& eval_node(post.nodes@, post.eq_constraints@[oe + 1].lhs as int, w, f, ch) == eval_node(
        pre_nodes,
        rhs.limb_exprs@[1] as int,
        w,
        f,
        ch,
    )
    &&& eval_node(post.nodes@, post.eq_constraints@[oe + 1].rhs as int, w, f, ch)
        == crate::field::e_add(
        crate::field::e_add(e_mul(wit_at(w, b + 2), (0x8000nat, 0nat)), (0nat, 0nat)),
        wit_at(w, b + 3),
    )
    &&& eval_node(post.nodes@, post.eq_constraints@[oe + 2].lhs as int, w, f, ch) == e_sub(
        m_lhs,
        m_rhs,
    )
    &&& eval_node(post.nodes@, post.eq_constraints@[oe + 2].rhs as int, w, f, ch) == e_sub(
        limbs_eval(w, b + 4, 2),
        e_mul(flagv, (pow2(32), 0nat)),
    )
}

/// The inner signed comparison: extracts both operands' sign bits, maps each
/// operand to the field value of its signed reading, and delegates to the
/// core identity over the full word width.
pub struct InnerSignedLtConfig {
    pub is_lhs_neg: SignedExtendConfig,
    pub is_rhs_neg: SignedExtendConfig,
    pub config: InnerLtConfig,
}

impl InnerSignedLtConfig {
    /// The gadget's columns fit a row of `n` columns.
    pub open spec fn wf(self, n: nat) -> bool {
        let b = self.is_lhs_neg.is_neg.id as int;
        &&& self.is_lhs_neg.is_neg.id == b
        &&& self.is_lhs_neg.rest.id == b + 1
        &&& self.is_rhs_neg.is_neg.id == b + 2
        &&& self.is_rhs_neg.rest.id == b + 3
        &&& self.config.diff@.len() == 2
        &&& self.config.max_num_u16_limbs == 2
        &&& self.config.diff@[0].id == b + 4
        &&& self.config.diff@[1].id == b + 5
        &&& b + 6 <= n
    }

    /// Registers the sign extractions of both operands and the core identity
    /// over their signed field readings.
    pub fn construct_circuit(
        cb: &mut CircuitBuilder,
        name: &str,
        lhs: &UInt,
        rhs: &UInt,
        is_lt_expr: usize,
    ) -> (r: Result<InnerSignedLtConfig, ZKVMError>)
        requires
            lhs.expr_wf(old(cb).cs.nodes@.len() as nat),
            rhs.expr_wf(old(cb).cs.nodes@.len() as nat),
            is_lt_expr < old(cb).cs.nodes@.len(),
        ensures
            r is Ok,
            r matches Ok(cfg) ==> {
                &&& cs_extends(final(cb).cs, old(cb).cs)
                &&& final(cb).cs.witin_names@.len() == old(cb).cs.witin_names@.len() + 6
                &&& cfg.is_lhs_neg.is_neg.id == old(cb).cs.witin_names@.len()
                &&& cfg.wf(final(cb).cs.witin_names@.len() as nat)
                &&& final(cb).cs.lk_tables@ == old(cb).cs.lk_tables@
                &&& final(cb).cs.zero_constraints@.len() == old(cb).cs.zero_constraints@.len() + 2
                &&& final(cb).cs.eq_constraints@.len() == old(cb).cs.eq_constraints@.len() + 3
                &&& final(cb).cs.lk_expressions@.len() == old(cb).cs.lk_expressions@.len() + 4
                &&& forall|w: Seq<nat>, f: Seq<nat>, ch: Seq<(nat, nat)>|
                    #[trigger] signed_cmp_row_constraints(
                        final(cb).cs,
                        old(cb).cs.nodes@,
                        *lhs,
                        *rhs,
                        old(cb).cs.witin_names@.len() as int,
                        old(cb).cs.zero_constraints@.len() as int,
                        old(cb).cs.eq_constraints@.len() as int,
                        eval_node(old(cb).cs.nodes@, is_lt_expr as int, w, f, ch),
                        w,
                        f,
                        ch,
                    )
            },
    {
        let ghost s0 = cb.cs;
        let is_lhs_neg = match SignedExtendConfig::construct_circuit(cb, lhs.limb_exprs[1]) {
            Ok(c) => c,
            Err(e) => {
                return Err(e);
            },
        };
        let ghost s_e1 = cb.cs;
        let is_rhs_neg = match SignedExtendConfig::construct_circuit(cb, rhs.limb_exprs[1]) {
            Ok(c) => c,
            Err(e) => {
                return Err(e);
            },
        };
        let ghost s_e2 = cb.cs;
        let lhs_value = lhs.to_field_expr(cb, is_lhs_neg.is_neg_expr);
        let ghost s_m1 = cb.cs;
        let rhs_value = rhs.to_field_expr(cb, is_rhs_neg.is_neg_expr);
        let ghost s_m2 = cb.cs;
        let config = match InnerLtConfig::construct_circuit(
            cb,
            name,
            lhs_value,
            rhs_value,
            is_lt_expr,
            UINT_LIMBS,
        ) {
            Ok(c) => c,
            Err(e) => {
                return Err(e);
            },
        };
        proof {
            let fin = cb.cs;
            let b = s0.witin_names@.len() as int;
            let oz = s0.zero_constraints@.len() as int;
            let oe = s0.eq_constraints@.len() as int;
            assert(forall|j: int| 0 <= j < s_m2.nodes@.len() ==> s_m2.nodes@[j] == fin.nodes@[j]);
            assert(forall|j: int| 0 <= j < s_m1.nodes@.len() ==> s_m1.nodes@[j] == fin.nodes@[j]);
            assert(forall|j: int| 0 <= j < s_e2.nodes@.len() ==> s_e2.nodes@[j] == fin.nodes@[j]);
            assert(forall|j: int| 0 <= j < s_e1.nodes@.len() ==> s_e1.nodes@[j] == fin.nodes@[j]);
            assert(forall|j: int| 0 <= j < s0.nodes@.len() ==> s0.nodes@[j] == fin.nodes@[j]);
            assert(fin.zero_constraints@[oz] == s_e1.zero_constraints@.last());
            assert(fin.zero_constraints@[oz + 1] == s_e2.zero_constraints@.last());
            assert(fin.eq_constraints@[oe] == s_e1.eq_constraints@.last());
            assert(fin.eq_constraints@[oe + 1] == s_e2.eq_constraints@.last());
            assert(fin.eq_constraints@[oe + 2] == fin.eq_constraints@.last());
            assert forall|w: Seq<nat>, f: Seq<nat>, ch: Seq<(nat, nat)>|
                #[trigger] signed_cmp_row_constraints(
                fin,
                s0.nodes@,
                *lhs,
                *rhs,
                b,
                oz,
                oe,
                eval_node(s0.nodes@, is_lt_expr as int, w, f, ch),
                w,
                f,
                ch,
            ) by {
                crate::expr::lemma_eval_extend_one(
                    s_e1.nodes@,
                    fin.nodes@,
                    s_e1.zero_constraints@.last().expr as int,
                    w,
                    f,
                    ch,
                );
                crate::expr::lemma_eval_extend_one(
                    s_e2.nodes@,
                    fin.nodes@,
                    s_e2.zero_constraints@.last().expr as int,
                    w,
                    f,
                    ch,
                );
                crate::expr::lemma_eval_extend_one(
                    s_e1.nodes@,
                    fin.nodes@,
                    s_e1.eq_constraints@.last().lhs as int,
                    w,
                    f,
                    ch,
                );
                crate::expr::lemma_eval_extend_one(
                    s_e1.nodes@,
                    fin.nodes@,
                    s_e1.eq_constraints@.last().rhs as int,
                    w,
                    f,
                    ch,
                );
                crate::expr::lemma_eval_extend_one(
                    s_e2.nodes@,
                    fin.nodes@,
                    s_e2.eq_constraints@.last().lhs as int,
                    w,
                    f,
                    ch,
                );
                crate::expr::lemma_eval_extend_one(
                    s_e2.nodes@,
                    fin.nodes@,
                    s_e2.eq_constraints@.last().rhs as int,
                    w,
                    f,
                    ch,
                );
                crate::expr::lemma_eval_extend_one(
                    s0.nodes@,
                    s_e1.nodes@,
                    rhs.limb_exprs@[1] as int,
                    w,
                    f,
                    ch,
                );
                // the mapped operand values feeding the core identity
                crate::expr::lemma_eval_extend_one(s0.nodes@, s_e2.nodes@, lhs.value_expr as int, w, f, ch);
                crate::expr::lemma_eval_extend_one(s0.nodes@, s_m1.nodes@, rhs.value_expr as int, w, f, ch);
                assert(eval_node(s_e2.nodes@, is_lhs_neg.is_neg_expr as int, w, f, ch) == wit_at(
                    w,
                    b,
                ));
                assert(eval_node(s_m1.nodes@, is_rhs_neg.is_neg_expr as int, w, f, ch) == wit_at(
                    w,
                    b + 2,
                ));
                crate::expr::lemma_eval_extend_one(s_m1.nodes@, s_m2.nodes@, lhs_value as int, w, f, ch);
                crate::expr::lemma_eval_extend_one(s0.nodes@, s_m2.nodes@, is_lt_expr as int, w, f, ch);
                assert(pow2((16 * 2) as nat) == pow2(32));
            }
        }
        Ok(InnerSignedLtConfig { is_lhs_neg, is_rhs_neg, config })
    }

    /// Fills both sign extractions from the operands' top limbs and the limb
    /// columns from the signed difference.
    pub fn assign_instance(
        &self,
        instance: &mut Vec<Fp>,
        lkm: &mut LkMultiplicity,
        lhs: i32,
        rhs: i32,
    ) -> (r: Result<(), ZKVMError>)
        requires
            self.wf(old(instance)@.len() as nat),
        ensures
            r is Ok,
            final(instance)@.len() == old(instance)@.len(),
            (final(instance)@[self.is_lhs_neg.is_neg.id as int])@ == (if lhs < 0 {
                1nat
            } else {
                0nat
            }),
            (final(instance)@[self.is_rhs_neg.is_neg.id as int])@ == (if rhs < 0 {
                1nat
            } else {
                0nat
            }),
            forall|i: int|
                0 <= i < 2 ==> (#[trigger] final(instance)@[self.config.diff@[i].id as int])@
                    == limb(signed_diff(lhs as int, rhs as int), i as nat),
            forall|j: int|
                0 <= j < old(instance)@.len() && !(self.is_lhs_neg.is_neg.id <= j
                    < self.is_lhs_neg.is_neg.id + 6) ==> final(instance)@[j] == old(instance)@[j],
            forall|v: u64| final(lkm).u5_count(v) == old(lkm).u5_count(v),
    {
        let lhs_word = word_of_i32(lhs);
        let rhs_word = word_of_i32(rhs);
        let lhs_top: u64 = (lhs_word as u64) / 0x10000;
        let rhs_top: u64 = (rhs_word as u64) / 0x10000;
        let _ = self.is_lhs_neg.assign_instance(instance, lkm, lhs_top);
        let _ = self.is_rhs_neg.assign_instance(instance, lkm, rhs_top);
        let _ = self.config.assign_instance_signed(instance, lkm, lhs, rhs);
        proof {
            lemma_top_bit(lhs as int);
            lemma_top_bit(rhs as int);
        }
        Ok(())
    }
}

/// The unsigned 32-bit word carrying a signed value's two's-complement bits.
pub fn word_of_i32(x: i32) -> (r: u32)
    ensures
        r as nat == as_word(x as int),
{
    if x >= 0 {
        x as u32
    } else {
        ((x as i64) + 0x1_0000_0000) as u32
    }
}

/// The top bit of a signed value's word is its sign.
proof fn lemma_top_bit(x: int)
    requires
        -0x8000_0000 <= x < 0x8000_0000,
    ensures
        (as_word(x) / 0x10000) / 0x8000 == (if x < 0 {
            1nat
        } else {
            0nat
        }),
        as_word(x) / 0x10000 < 0x10000,
{
    if x < 0 {
        assert(as_word(x) == x + 0x1_0000_0000);
        assert(0x8000_0000 <= as_word(x) < 0x1_0000_0000);
    } else {
        assert(as_word(x) < 0x8000_0000);
    }
}

/// The computed signed less-than gadget: a fresh boolean output column tied
/// to the signed order of two words.
pub struct SignedLtConfig {
    pub is_lt: WitIn,
    pub config: InnerSignedLtConfig,
    pub is_lt_expr: usize,
}

impl SignedLtConfig {
    /// The boolean output expression: `1` exactly when `lhs < rhs` as signed
    /// words, on any row satisfying the gadget's constraints.
    pub fn expr(&self) -> (r: usize)
        ensures
            r == self.is_lt_expr,
    {
        self.is_lt_expr
    }

    /// The gadget's columns fit a row of `n` columns.
    pub open spec fn wf(self, n: nat) -> bool {
        &&& self.is_lt.id < n
        &&& self.config.wf(n)
        &&& self.is_lt.id + 1 == self.config.is_lhs_neg.is_neg.id
    }

    /// Registers a fresh boolean `is_lt` column and the signed comparison
    /// tying it to the operands' signed order.
    pub fn construct_circuit(cb: &mut CircuitBuilder, name: &str, lhs: &UInt, rhs: &UInt) -> (r:
        Result<SignedLtConfig, ZKVMError>)
        requires
            lhs.expr_wf(old(cb).cs.nodes@.len() as nat),
            rhs.expr_wf(old(cb).cs.nodes@.len() as nat),
        ensures
            r is Ok,
            r matches Ok(cfg) ==> {
                &&& cs_extends(final(cb).cs, old(cb).cs)
                &&& final(cb).cs.witin_names@.len() == old(cb).cs.witin_names@.len() + 7
                &&& cfg.is_lt.id == old(cb).cs.witin_names@.len()
                &&& cfg.wf(final(cb).cs.witin_names@.len() as nat)
                &&& final(cb).cs.lk_tables@ == old(cb).cs.lk_tables@
                &&& final(cb).cs.nodes@[cfg.is_lt_expr as int] == crate::expr::ExprNode::Wit(
                    cfg.is_lt.id,
                )
                &&& cfg.is_lt_expr < final(cb).cs.nodes@.len()
                &&& final(cb).cs.zero_constraints@.len() == old(cb).cs.zero_constraints@.len() + 3
                &&& final(cb).cs.eq_constraints@.len() == old(cb).cs.eq_constraints@.len() + 3
                &&& final(cb).cs.lk_expressions@.len() == old(cb).cs.lk_expressions@.len() + 4
                &&& forall|w: Seq<nat>, f: Seq<nat>, ch: Seq<(nat, nat)>|
                    #[trigger] eval_node(
                        final(cb).cs.nodes@,
                        final(cb).cs.zero_constraints@[old(cb).cs.zero_constraints@.len() as int].expr
                            as int,
                        w,
                        f,
                        ch,
                    ) == e_mul(
                        wit_at(w, cfg.is_lt.id as int),
                        e_sub(wit_at(w, cfg.is_lt.id as int), (1nat, 0nat)),
                    )
                &&& forall|w: Seq<nat>, f: Seq<nat>, ch: Seq<(nat, nat)>|
                    #[trigger] signed_cmp_row_constraints(
                        final(cb).cs,
                        old(cb).cs.nodes@,
                        *lhs,
                        *rhs,
                        old(cb).cs.witin_names@.len() as int + 1,
                        old(cb).cs.zero_constraints@.len() as int + 1,
                        old(cb).cs.eq_constraints@.len() as int,
                        wit_at(w, cfg.is_lt.id as int),
                        w,
                        f,
                        ch,
                    )
            },
    {
        cb.push_namespace("is_signed_lt");
        let ghost s0 = cb.cs;
        let is_lt = cb.create_witin(name);
        let we = cb.expr_wit(is_lt);
        let ghost s_w = cb.cs;
        let res_bit = cb.assert_bit("is_lt_bit", we);
        let ghost s_b = cb.cs;
        let config = match InnerSignedLtConfig::construct_circuit(cb, name, lhs, rhs, we) {
            Ok(c) => c,
            Err(e) => {
                cb.pop_namespace();
                return Err(e);
            },
        };
        let ghost s_in = cb.cs;
        cb.pop_namespace();
        proof {
            let fin = cb.cs;
            let b = s0.witin_names@.len() as int;
            let oz = s0.zero_constraints@.len() as int;
            assert(forall|j: int| 0 <= j < s_b.nodes@.len() ==> s_b.nodes@[j] == fin.nodes@[j]);
            assert(forall|j: int| 0 <= j < s_w.nodes@.len() ==> s_w.nodes@[j] == fin.nodes@[j]);
            assert(fin.zero_constraints@[oz] == s_b.zero_constraints@.last());
            assert forall|w: Seq<nat>, f: Seq<nat>, ch: Seq<(nat, nat)>|
                #[trigger] eval_node(
                fin.nodes@,
                fin.zero_constraints@[oz].expr as int,
                w,
                f,
                ch,
            ) == e_mul(wit_at(w, is_lt.id as int), e_sub(wit_at(w, is_lt.id as int), (1nat, 0nat)))
                by {
                assert(eval_node(s_w.nodes@, we as int, w, f, ch) == wit_at(w, is_lt.id as int));
                crate::expr::lemma_eval_extend_one(
                    s_b.nodes@,
                    fin.nodes@,
                    s_b.zero_constraints@.last().expr as int,
                    w,
                    f,
                    ch,
                );
            }
            assert forall|w: Seq<nat>, f: Seq<nat>, ch: Seq<(nat, nat)>|
                #[trigger] signed_cmp_row_constraints(
                fin,
                s0.nodes@,
                *lhs,
                *rhs,
                b + 1,
                oz + 1,
                s0.eq_constraints@.len() as int,
                wit_at(w, is_lt.id as int),
                w,
                f,
                ch,
            ) by {
                assert(signed_cmp_row_constraints(
                    s_in,
                    s_b.nodes@,
                    *lhs,
                    *rhs,
                    s_b.witin_names@.len() as int,
                    s_b.zero_constraints@.len() as int,
                    s_b.eq_constraints@.len() as int,
                    eval_node(s_b.nodes@, we as int, w, f, ch),
                    w,
                    f,
                    ch,
                ));
                assert(s_b.witin_names@.len() == b + 1 && s_b.zero_constraints@.len() == oz + 1
                    && s_b.eq_constraints@.len() == s0.eq_constraints@.len());
                assert(eval_node(s_b.nodes@, we as int, w, f, ch) == wit_at(w, is_lt.id as int));
                crate::expr::lemma_eval_extend_one(s0.nodes@, s_b.nodes@, lhs.value_expr as int, w, f, ch);
                crate::expr::lemma_eval_extend_one(s0.nodes@, s_b.nodes@, rhs.value_expr as int, w, f, ch);
                crate::expr::lemma_eval_extend_one(
                    s0.nodes@,
                    s_b.nodes@,
                    lhs.limb_exprs@[1] as int,
                    w,
                    f,
                    ch,
                );
                crate::expr::lemma_eval_extend_one(
                    s0.nodes@,
                    s_b.nodes@,
                    rhs.limb_exprs@[1] as int,
                    w,
                    f,
                    ch,
                );
            }
        }
        match res_bit {
            Ok(_) => Ok(SignedLtConfig { is_lt, config, is_lt_expr: we }),
            Err(e) => Err(e),
        }
    }

    /// Fills the boolean flag with the signed order and the sub-gadgets'
    /// columns for one row.
    pub fn assign_instance(
        &self,
        instance: &mut Vec<Fp>,
        lkm: &mut LkMultiplicity,
        lhs: i32,
        rhs: i32,
    ) -> (r: Result<(), ZKVMError>)
        requires
            self.wf(old(instance)@.len() as nat),
        ensures
            r is Ok,
            final(instance)@.len() == old(instance)@.len(),
            (final(instance)@[self.is_lt.id as int])@ == (if lhs < rhs {
                1nat
            } else {
                0nat
            }),
            (final(instance)@[self.config.is_lhs_neg.is_neg.id as int])@ == (if lhs < 0 {
                1nat
            } else {
                0nat
            }),
            (final(instance)@[self.config.is_rhs_neg.is_neg.id as int])@ == (if rhs < 0 {
                1nat
            } else {
                0nat
            }),
            forall|i: int|
                0 <= i < 2 ==> (#[trigger] final(instance)@[self.config.config.diff@[i].id as int])@
                    == limb(signed_diff(lhs as int, rhs as int), i as nat),
            forall|v: u64| final(lkm).u5_count(v) == old(lkm).u5_count(v),
    {
        let flag = if lhs < rhs {
            Fp::one()
        } else {
            Fp::zero()
        };
        set_val(instance, self.is_lt, flag);
        let r = self.config.assign_instance(instance, lkm, lhs, rhs);
        r
    }
}

/// An unconditional signed less-than assertion: the signed comparison with
/// the flag hard-wired to the constant one.
pub struct AssertSignedLtConfig {
    pub config: InnerSignedLtConfig,
}

impl AssertSignedLtConfig {
    /// The gadget's columns fit a row of `n` columns.
    pub open spec fn wf(self, n: nat) -> bool {
        self.config.wf(n)
    }

    /// Registers the signed comparison with the flag fixed to one.
    pub fn construct_circuit(cb: &mut CircuitBuilder, name: &str, lhs: &UInt, rhs: &UInt) -> (r:
        Result<AssertSignedLtConfig, ZKVMError>)
        requires
            lhs.expr_wf(old(cb).cs.nodes@.len() as nat),
            rhs.expr_wf(old(cb).cs.nodes@.len() as nat),
        ensures
            r is Ok,
            r matches Ok(cfg) ==> {
                &&& cs_extends(final(cb).cs, old(cb).cs)
                &&& final(cb).cs.witin_names@.len() == old(cb).cs.witin_names@.len() + 6
                &&& cfg.config.is_lhs_neg.is_neg.id == old(cb).cs.witin_names@.len()
                &&& cfg.wf(final(cb).cs.witin_names@.len() as nat)
                &&& final(cb).cs.lk_tables@ == old(cb).cs.lk_tables@
                &&& final(cb).cs.zero_constraints@.len() == old(cb).cs.zero_constraints@.len() + 2
                &&& final(cb).cs.eq_constraints@.len() == old(cb).cs.eq_constraints@.len() + 3
                &&& final(cb).cs.lk_expressions@.len() == old(cb).cs.lk_expressions@.len() + 4
                &&& forall|w: Seq<nat>, f: Seq<nat>, ch: Seq<(nat, nat)>|
                    #[trigger] signed_cmp_row_constraints(
                        final(cb).cs,
                        old(cb).cs.nodes@,
                        *lhs,
                        *rhs,
                        old(cb).cs.witin_names@.len() as int,
                        old(cb).cs.zero_constraints@.len() as int,
                        old(cb).cs.eq_constraints@.len() as int,
                        (1nat, 0nat),
                        w,
                        f,
                        ch,
                    )
            },
    {
        cb.push_namespace("assert_signed_lt");
        let ghost s0 = cb.cs;
        let one = cb.expr_constant(Fp::one());
        let ghost s_one = cb.cs;
        let config = match InnerSignedLtConfig::construct_circuit(cb, name, lhs, rhs, one) {
            Ok(c) => c,
            Err(e) => {
                cb.pop_namespace();
                return Err(e);
            },
        };
        let ghost s_in = cb.cs;
        cb.pop_namespace();
        proof {
            let fin = cb.cs;
            let b = s0.witin_names@.len() as int;
            assert forall|w: Seq<nat>, f: Seq<nat>, ch: Seq<(nat, nat)>|
                #[trigger] signed_cmp_row_constraints(
                fin,
                s0.nodes@,
                *lhs,
                *rhs,
                b,
                s0.zero_constraints@.len() as int,
                s0.eq_constraints@.len() as int,
                (1nat, 0nat),
                w,
                f,
                ch,
            ) by {
                assert(signed_cmp_row_constraints(
                    s_in,
                    s_one.nodes@,
                    *lhs,
                    *rhs,
                    s_one.witin_names@.len() as int,
                    s_one.zero_constraints@.len() as int,
                    s_one.eq_constraints@.len() as int,
                    eval_node(s_one.nodes@, one as int, w, f, ch),
                    w,
                    f,
                    ch,
                ));
                assert(s_one.witin_names@.len() == b && s_one.zero_constraints@.len()
                    == s0.zero_constraints@.len() && s_one.eq_constraints@.len()
                    == s0.eq_constraints@.len());
                assert(eval_node(s_one.nodes@, one as int, w, f, ch) == (1nat, 0nat));
                crate::expr::lemma_eval_extend_one(s0.nodes@, s_one.nodes@, lhs.value_expr as int, w, f, ch);
                crate::expr::lemma_eval_extend_one(s0.nodes@, s_one.nodes@, rhs.value_expr as int, w, f, ch);
                crate::expr::lemma_eval_extend_one(
                    s0.nodes@,
                    s_one.nodes@,
                    lhs.limb_exprs@[1] as int,
                    w,
                    f,
                    ch,
                );
                crate::expr::lemma_eval_extend_one(
                    s0.nodes@,
                    s_one.nodes@,
                    rhs.limb_exprs@[1] as int,
                    w,
                    f,
                    ch,
                );
            }
        }
        Ok(AssertSignedLtConfig { config })
    }

    /// Fills the sub-gadgets' columns for one row.
    pub fn assign_instance(
        &self,
        instance: &mut Vec<Fp>,
        lkm: &mut LkMultiplicity,
        lhs: i32,
        rhs: i32,
    ) -> (r: Result<(), ZKVMError>)
        requires
            self.wf(old(instance)@.len() as nat),
        ensures
            r is Ok,
            final(instance)@.len() == old(instance)@.len(),
            forall|i: int|
                0 <= i < 2 ==> (#[trigger] final(instance)@[self.config.config.diff@[i].id as int])@
                    == limb(signed_diff(lhs as int, rhs as int), i as nat),
            forall|v: u64| final(lkm).u5_count(v) == old(lkm).u5_count(v),
    {
        let r = self.config.assign_instance(instance, lkm, lhs, rhs);
        r
    }
}

} // verus!
