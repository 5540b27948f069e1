//! The trace-satisfiability oracle: a row-by-row interpreter that evaluates
//! every registered assert-zero, assert-equal and lookup expression against
//! a concrete trace and collects every violation, without any aggregation or
//! proof construction.

use vstd::prelude::*;

use crate::cs::{lk_rlc, rom_tag, CircuitBuilder, ConstraintSystem, ROMType};
use crate::expr::{eval_expr, eval_node, ext_views, fp_views};
use crate::field::{Ext, Fp, FIELD_MODULUS};

verus! {

/// One collected violation: the failing constraint's expression handle, the
/// evaluated value(s), the constraint's diagnostic name and the trace row.
#[derive(Debug)]
pub enum MockProverError {
    AssertZeroError { expression: usize, evaluated: Ext, name: String, row: usize },
    AssertEqualError {
        left_expression: usize,
        right_expression: usize,
        left: Ext,
        right: Ext,
        name: String,
        row: usize,
    },
    LookupError { expression: usize, evaluated: Ext, name: String, row: usize },
}

/// The residues of one trace row, or an empty row beyond the trace.
pub open spec fn row_or_empty(rows: Seq<Vec<Fp>>, r: int) -> Seq<nat> {
    if 0 <= r < rows.len() {
        fp_views(rows[r]@)
    } else {
        Seq::empty()
    }
}

/// The two challenge residue pairs the oracle evaluates under: the supplied
/// ones, or ones by default.
pub open spec fn chal_pair(challenge: Option<(Ext, Ext)>) -> ((nat, nat), (nat, nat)) {
    match challenge {
        Some(c) => (c.0@, c.1@),
        None => ((1nat, 0nat), (1nat, 0nat)),
    }
}

/// Assert-zero constraint `k` holds on row `r`.
pub open spec fn zero_ok(
    cs: ConstraintSystem,
    wits: Seq<Vec<Fp>>,
    fixed: Seq<Vec<Fp>>,
    c0: (nat, nat),
    c1: (nat, nat),
    k: int,
    r: int,
) -> bool {
    eval_node(
        cs.nodes@,
        cs.zero_constraints@[k].expr as int,
        row_or_empty(wits, r),
        row_or_empty(fixed, r),
        seq![c0, c1],
    ) == (0nat, 0nat)
}

/// Assert-equal constraint `k` holds on row `r`.
pub open spec fn eq_ok(
    cs: ConstraintSystem,
    wits: Seq<Vec<Fp>>,
    fixed: Seq<Vec<Fp>>,
    c0: (nat, nat),
    c1: (nat, nat),
    k: int,
    r: int,
) -> bool {
    eval_node(
        cs.nodes@,
        cs.eq_constraints@[k].lhs as int,
        row_or_empty(wits, r),
        row_or_empty(fixed, r),
        seq![c0, c1],
    ) == eval_node(
        cs.nodes@,
        cs.eq_constraints@[k].rhs as int,
        row_or_empty(wits, r),
        row_or_empty(fixed, r),
        seq![c0, c1],
    )
}

/// The value appears in the encoding of a loaded table: the 5-bit range
/// table or the 16-bit range table.
pub open spec fn in_tables(v: (nat, nat), c0: (nat, nat), c1: (nat, nat)) -> bool {
    ||| exists|k: int|
        0 <= k < 32 && v == #[trigger] lk_rlc(rom_tag(ROMType::U5), (k as nat, 0nat), c0, c1)
    ||| exists|k: int|
        0 <= k < 65536 && v == #[trigger] lk_rlc(rom_tag(ROMType::U16), (k as nat, 0nat), c0, c1)
}

/// Lookup `k` is satisfied on row `r`.
pub open spec fn lookup_ok(
    cs: ConstraintSystem,
    wits: Seq<Vec<Fp>>,
    fixed: Seq<Vec<Fp>>,
    c0: (nat, nat),
    c1: (nat, nat),
    k: int,
    r: int,
) -> bool {
    in_tables(
        eval_node(
            cs.nodes@,
            cs.lk_expressions@[k].expr as int,
            row_or_empty(wits, r),
            row_or_empty(fixed, r),
            seq![c0, c1],
        ),
        c0,
        c1,
    )
}

/// Every registered constraint and lookup holds on every trace row.
pub open spec fn all_satisfied(
    cs: ConstraintSystem,
    wits: Seq<Vec<Fp>>,
    fixed: Seq<Vec<Fp>>,
    c0: (nat, nat),
    c1: (nat, nat),
) -> bool {
    &&& forall|k: int, r: int|
        0 <= k < cs.zero_constraints@.len() && 0 <= r < wits.len() ==> #[trigger] zero_ok(
            cs,
            wits,
            fixed,
            c0,
            c1,
            k,
            r,
        )
    &&& forall|k: int, r: int|
        0 <= k < cs.eq_constraints@.len() && 0 <= r < wits.len() ==> #[trigger] eq_ok(
            cs,
            wits,
            fixed,
            c0,
            c1,
            k,
            r,
        )
    &&& forall|k: int, r: int|
        0 <= k < cs.lk_expressions@.len() && 0 <= r < wits.len() ==> #[trigger] lookup_ok(
            cs,
            wits,
            fixed,
            c0,
            c1,
            k,
            r,
        )
}

/// The error names a real violation of the recorded constraint system on
/// this trace.
pub open spec fn err_valid(
    cs: ConstraintSystem,
    wits: Seq<Vec<Fp>>,
    fixed: Seq<Vec<Fp>>,
    c0: (nat, nat),
    c1: (nat, nat),
    e: MockProverError,
) -> bool {
    match e {
        MockProverError::AssertZeroError { expression, evaluated, name, row } => {
            exists|k: int|
                {
                    &&& 0 <= k < cs.zero_constraints@.len()
                    &&& (#[trigger] cs.zero_constraints@[k]).expr == expression
                    &&& cs.zero_constraints@[k].name@ == name@
                    &&& row < wits.len()
                    &&& evaluated@ == eval_node(
                        cs.nodes@,
                        expression as int,
                        row_or_empty(wits, row as int),
                        row_or_empty(fixed, row as int),
                        seq![c0, c1],
                    )
                    &&& evaluated@ != (0nat, 0nat)
                }
        },
        MockProverError::AssertEqualError {
            left_expression,
            right_expression,
            left,
            right,
            name,
            row,
        } => {
            exists|k: int|
                {
                    &&& 0 <= k < cs.eq_constraints@.len()
                    &&& (#[trigger] cs.eq_constraints@[k]).lhs == left_expression
                    &&& cs.eq_constraints@[k].rhs == right_expression
                    &&& cs.eq_constraints@[k].name@ == name@
                    &&& row < wits.len()
                    &&& left@ == eval_node(
                        cs.nodes@,
                        left_expression as int,
                        row_or_empty(wits, row as int),
                        row_or_empty(fixed, row as int),
                        seq![c0, c1],
                    )
                    &&& right@ == eval_node(
                        cs.nodes@,
                        right_expression as int,
                        row_or_empty(wits, row as int),
                        row_or_empty(fixed, row as int),
                        seq![c0, c1],
                    )
                    &&& left@ != right@
                }
        },
        MockProverError::LookupError { expression, evaluated, name, row } => {
            exists|k: int|
                {
                    &&& 0 <= k < cs.lk_expressions@.len()
                    &&& (#[trigger] cs.lk_expressions@[k]).expr == expression
                    &&& cs.lk_expressions@[k].name@ == name@
                    &&& row < wits.len()
                    &&& evaluated@ == eval_node(
                        cs.nodes@,
                        expression as int,
                        row_or_empty(wits, row as int),
                        row_or_empty(fixed, row as int),
                        seq![c0, c1],
                    )
                    &&& !in_tables(evaluated@, c0, c1)
                }
        },
    }
}

/// Some collected error reports the assert-zero violation `(x, nm, r)`.
pub open spec fn reported_zero(
    errs: Seq<MockProverError>,
    x: usize,
    nm: Seq<char>,
    r: int,
) -> bool {
    exists|i: int|
        {
            &&& 0 <= i < errs.len()
            &&& (#[trigger] errs[i]) matches MockProverError::AssertZeroError {
                expression,
                name,
                row,
                ..
            } && expression == x && name@ == nm && row == r
        }
}

/// Some collected error reports the assert-equal violation `(l, rr, nm, r)`.
pub open spec fn reported_eq(
    errs: Seq<MockProverError>,
    l: usize,
    rr: usize,
    nm: Seq<char>,
    r: int,
) -> bool {
    exists|i: int|
        {
            &&& 0 <= i < errs.len()
            &&& (#[trigger] errs[i]) matches MockProverError::AssertEqualError {
                left_expression,
                right_expression,
                name,
                row,
                ..
            } && left_expression == l && right_expression == rr && name@ == nm && row == r
        }
}

/// Some collected error reports the lookup violation `(x, nm, r)`.
pub open spec fn reported_lookup(
    errs: Seq<MockProverError>,
    x: usize,
    nm: Seq<char>,
    r: int,
) -> bool {
    exists|i: int|
        {
            &&& 0 <= i < errs.len()
            &&& (#[trigger] errs[i]) matches MockProverError::LookupError {
                expression,
                name,
                row,
                ..
            } && expression == x && name@ == nm && row == r
        }
}

/// Every violation of the system on this trace is reported by some error.
pub open spec fn covers(
    cs: ConstraintSystem,
    wits: Seq<Vec<Fp>>,
    fixed: Seq<Vec<Fp>>,
    c0: (nat, nat),
    c1: (nat, nat),
    errs: Seq<MockProverError>,
) -> bool {
    &&& forall|k: int, r: int|
        0 <= k < cs.zero_constraints@.len() && 0 <= r < wits.len() && !(#[trigger] zero_ok(
            cs,
            wits,
            fixed,
            c0,
            c1,
            k,
            r,
        )) ==> reported_zero(errs, cs.zero_constraints@[k].expr, cs.zero_constraints@[k].name@, r)
    &&& forall|k: int, r: int|
        0 <= k < cs.eq_constraints@.len() && 0 <= r < wits.len() && !(#[trigger] eq_ok(
            cs,
            wits,
            fixed,
            c0,
            c1,
            k,
            r,
        )) ==> reported_eq(
            errs,
            cs.eq_constraints@[k].lhs,
            cs.eq_constraints@[k].rhs,
            cs.eq_constraints@[k].name@,
            r,
        )
    &&& forall|k: int, r: int|
        0 <= k < cs.lk_expressions@.len() && 0 <= r < wits.len() && !(#[trigger] lookup_ok(
            cs,
            wits,
            fixed,
            c0,
            c1,
            k,
            r,
        )) ==> reported_lookup(errs, cs.lk_expressions@[k].expr, cs.lk_expressions@[k].name@, r)
}

/// The random-linear-combination encoding of the concrete table row
/// `(rom, value)` under the two challenges, computed by building and
/// evaluating the same record expression a registered lookup uses.
fn lk_entry(rom: ROMType, value: u64, c0: Ext, c1: Ext) -> (r: Ext)
    ensures
        r@ == lk_rlc(rom_tag(rom), ((value as nat) % (FIELD_MODULUS as nat), 0nat), c0@, c1@),
{
    let mut cb = CircuitBuilder::new(ConstraintSystem::new("rom"));
    let ghost s0 = cb.cs;
    let v = cb.expr_constant(Fp::from_u64(value));
    let ghost s1 = cb.cs;
    let rec = cb.rlc_record_pair(rom, v);
    let mut chv: Vec<Ext> = Vec::new();
    chv.push(c0);
    chv.push(c1);
    let empty: Vec<Fp> = Vec::new();
    let r = eval_expr(&cb.cs.nodes, rec, &empty, &empty, &chv);
    proof {
        assert(ext_views(chv@) =~= seq![c0@, c1@]);
        assert(fp_views(empty@) =~= Seq::<nat>::empty());
        assert(eval_node(
            s1.nodes@,
            v as int,
            Seq::<nat>::empty(),
            Seq::<nat>::empty(),
            seq![c0@, c1@],
        ) == ((value as nat) % (FIELD_MODULUS as nat), 0nat));
    }
    r
}

/// Loads the 5-bit range table: the encodings of `(U5, 0)` … `(U5, 31)`.
pub fn load_u5_table(t_vec: &mut Vec<Ext>, challenge: (Ext, Ext))
    ensures
        final(t_vec)@.len() == old(t_vec)@.len() + 32,
        forall|j: int| 0 <= j < old(t_vec)@.len() ==> final(t_vec)@[j] == old(t_vec)@[j],
        forall|k: int|
            0 <= k < 32 ==> (#[trigger] final(t_vec)@[old(t_vec)@.len() + k])@ == lk_rlc(
                rom_tag(ROMType::U5),
                (k as nat, 0nat),
                challenge.0@,
                challenge.1@,
            ),
{
    let mut k: u64 = 0;
    while k < 32
        invariant
            k <= 32,
            t_vec@.len() == old(t_vec)@.len() + k,
            forall|j: int| 0 <= j < old(t_vec)@.len() ==> t_vec@[j] == old(t_vec)@[j],
            forall|j: int|
                0 <= j < k ==> (#[trigger] t_vec@[old(t_vec)@.len() + j])@ == lk_rlc(
                    rom_tag(ROMType::U5),
                    (j as nat, 0nat),
                    challenge.0@,
                    challenge.1@,
                ),
        decreases 32 - k,
    {
        let entry = lk_entry(ROMType::U5, k, challenge.0, challenge.1);
        proof {
            vstd::arithmetic::div_mod::lemma_small_mod(k as nat, FIELD_MODULUS as nat);
        }
        t_vec.push(entry);
        k = k + 1;
    }
}

/// Loads the 16-bit range table: the encodings of `(U16, 0)` … `(U16, 65535)`.
pub fn load_u16_table(t_vec: &mut Vec<Ext>, challenge: (Ext, Ext))
    ensures
        final(t_vec)@.len() == old(t_vec)@.len() + 65536,
        forall|j: int| 0 <= j < old(t_vec)@.len() ==> final(t_vec)@[j] == old(t_vec)@[j],
        forall|k: int|
            0 <= k < 65536 ==> (#[trigger] final(t_vec)@[old(t_vec)@.len() + k])@ == lk_rlc(
                rom_tag(ROMType::U16),
                (k as nat, 0nat),
                challenge.0@,
                challenge.1@,
            ),
{
    let mut k: u64 = 0;
    while k < 65536
        invariant
            k <= 65536,
            t_vec@.len() == old(t_vec)@.len() + k,
            forall|j: int| 0 <= j < old(t_vec)@.len() ==> t_vec@[j] == old(t_vec)@[j],
            forall|j: int|
                0 <= j < k ==> (#[trigger] t_vec@[old(t_vec)@.len() + j])@ == lk_rlc(
                    rom_tag(ROMType::U16),
                    (j as nat, 0nat),
                    challenge.0@,
                    challenge.1@,
                ),
        decreases 65536 - k,
    {
        let entry = lk_entry(ROMType::U16, k, challenge.0, challenge.1);
        proof {
            vstd::arithmetic::div_mod::lemma_small_mod(k as nat, FIELD_MODULUS as nat);
        }
        t_vec.push(entry);
        k = k + 1;
    }
}

/// Evaluates every assert-zero constraint on every row and appends one
/// error per violated (constraint, row) pair.
fn check_zero_constraints(
    cb: &CircuitBuilder,
    wits: &Vec<Vec<Fp>>,
    fixed: &Vec<Vec<Fp>>,
    chv: &Vec<Ext>,
    empty_row: &Vec<Fp>,
    errors: &mut Vec<MockProverError>,
)
    requires
        chv@.len() == 2,
        empty_row@.len() == 0,
    ensures
        final(errors)@.len() >= old(errors)@.len(),
        forall|i: int| 0 <= i < old(errors)@.len() ==> final(errors)@[i] == old(errors)@[i],
        forall|i: int|
            old(errors)@.len() <= i < final(errors)@.len() ==> err_valid(
                cb.cs,
                wits@,
                fixed@,
                ext_views(chv@)[0],
                ext_views(chv@)[1],
                #[trigger] final(errors)@[i],
            ),
        forall|k: int, r: int|
            0 <= k < cb.cs.zero_constraints@.len() && 0 <= r < wits@.len() && !(#[trigger] zero_ok(
                cb.cs,
                wits@,
                fixed@,
                ext_views(chv@)[0],
                ext_views(chv@)[1],
                k,
                r,
            )) ==> reported_zero(
                final(errors)@,
                cb.cs.zero_constraints@[k].expr,
                cb.cs.zero_constraints@[k].name@,
                r,
            ),
{
    let ghost c0 = ext_views(chv@)[0];
    let ghost c1 = ext_views(chv@)[1];
    proof {
        assert(ext_views(chv@) =~= seq![c0, c1]);
        assert(fp_views(empty_row@) =~= Seq::<nat>::empty());
    }
    let mut k: usize = 0;
    while k < cb.cs.zero_constraints.len()
        invariant
            chv@.len() == 2,
            empty_row@.len() == 0,
            c0 == ext_views(chv@)[0],
            c1 == ext_views(chv@)[1],
            k <= cb.cs.zero_constraints@.len(),
            errors@.len() >= old(errors)@.len(),
            forall|i: int| 0 <= i < old(errors)@.len() ==> errors@[i] == old(errors)@[i],
            forall|i: int|
                old(errors)@.len() <= i < errors@.len() ==> err_valid(
                    cb.cs,
                    wits@,
                    fixed@,
                    c0,
                    c1,
                    #[trigger] errors@[i],
                ),
            forall|k2: int, r2: int|
                0 <= k2 < k && 0 <= r2 < wits@.len() && !(#[trigger] zero_ok(
                    cb.cs,
                    wits@,
                    fixed@,
                    c0,
                    c1,
                    k2,
                    r2,
                )) ==> reported_zero(
                    errors@,
                    cb.cs.zero_constraints@[k2].expr,
                    cb.cs.zero_constraints@[k2].name@,
                    r2,
                ),
        decreases cb.cs.zero_constraints@.len() - k,
    {
        let mut r: usize = 0;
        while r < wits.len()
            invariant
                chv@.len() == 2,
                empty_row@.len() == 0,
                c0 == ext_views(chv@)[0],
                c1 == ext_views(chv@)[1],
                k < cb.cs.zero_constraints@.len(),
                r <= wits@.len(),
                errors@.len() >= old(errors)@.len(),
                forall|i: int| 0 <= i < old(errors)@.len() ==> errors@[i] == old(errors)@[i],
                forall|i: int|
                    old(errors)@.len() <= i < errors@.len() ==> err_valid(
                        cb.cs,
                        wits@,
                        fixed@,
                        c0,
                        c1,
                        #[trigger] errors@[i],
                    ),
                forall|k2: int, r2: int|
                    0 <= k2 < k && 0 <= r2 < wits@.len() && !(#[trigger] zero_ok(
                        cb.cs,
                        wits@,
                        fixed@,
                        c0,
                        c1,
                        k2,
                        r2,
                    )) ==> reported_zero(
                        errors@,
                        cb.cs.zero_constraints@[k2].expr,
                        cb.cs.zero_constraints@[k2].name@,
                        r2,
                    ),
                forall|r2: int|
                    0 <= r2 < r && !(#[trigger] zero_ok(cb.cs, wits@, fixed@, c0, c1, k as int, r2))
                        ==> reported_zero(
                        errors@,
                        cb.cs.zero_constraints@[k as int].expr,
                        cb.cs.zero_constraints@[k as int].name@,
                        r2,
                    ),
            decreases wits@.len() - r,
        {
            let ghost pre = errors@;
            let expr = cb.cs.zero_constraints[k].expr;
            let frow = if r < fixed.len() {
                &fixed[r]
            } else {
                empty_row
            };
            let v = eval_expr(&cb.cs.nodes, expr, &wits[r], frow, chv);
            proof {
                assert(fp_views(wits@[r as int]@) == row_or_empty(wits@, r as int));
                if r < fixed@.len() {
                    assert(fp_views(frow@) == row_or_empty(fixed@, r as int));
                } else {
                    assert(fp_views(frow@) =~= row_or_empty(fixed@, r as int));
                }
                assert(ext_views(chv@) == seq![c0, c1]);
            }
            if !v.is_zero() {
                let name = cb.cs.zero_constraints[k].name.clone();
                errors.push(
                    MockProverError::AssertZeroError { expression: expr, evaluated: v, name, row: r },
                );
                proof {
                    let e = errors@.last();
                    assert(err_valid(cb.cs, wits@, fixed@, c0, c1, e)) by {
                        assert(0 <= k < cb.cs.zero_constraints@.len() && (
                        cb.cs.zero_constraints@[k as int]).expr == expr);
                    }
                    assert forall|r2: int|
                        0 <= r2 < r + 1 && !(#[trigger] zero_ok(
                        cb.cs,
                        wits@,
                        fixed@,
                        c0,
                        c1,
                        k as int,
                        r2,
                    )) implies reported_zero(
                        errors@,
                        cb.cs.zero_constraints@[k as int].expr,
                        cb.cs.zero_constraints@[k as int].name@,
                        r2,
                    ) by {
                        if r2 == r {
                            assert(errors@[errors@.len() - 1] == e);
                        } else {
                            assert(reported_zero(pre, cb.cs.zero_constraints@[k as int].expr,
                            cb.cs.zero_constraints@[k as int].name@, r2));
                            let i = choose|i: int|
                                {
                                    &&& 0 <= i < pre.len()
                                    &&& (#[trigger] pre[i]) matches MockProverError::AssertZeroError { expression, name, row, .. }
                                        && expression == cb.cs.zero_constraints@[k as int].expr
                                        && name@ == cb.cs.zero_constraints@[k as int].name@
                                        && row == r2
                                };
                            assert(errors@[i] == pre[i]);
                        }
                    }
                    lemma_reported_push_stable(pre, errors@, cb.cs);
                }
            } else {
                proof {
                    assert(zero_ok(cb.cs, wits@, fixed@, c0, c1, k as int, r as int));
                }
            }
            r = r + 1;
        }
        k = k + 1;
    }
}

/// Pushing more errors keeps every already-reported violation reported.
proof fn lemma_reported_push_stable(
    pre: Seq<MockProverError>,
    post: Seq<MockProverError>,
    cs: ConstraintSystem,
)
    requires
        pre.len() <= post.len(),
        forall|i: int| 0 <= i < pre.len() ==> post[i] == pre[i],
    ensures
        forall|x: usize, nm: Seq<char>, r: int|
            #[trigger] reported_zero(pre, x, nm, r) ==> reported_zero(post, x, nm, r),
        forall|l: usize, rr: usize, nm: Seq<char>, r: int|
            #[trigger] reported_eq(pre, l, rr, nm, r) ==> reported_eq(post, l, rr, nm, r),
        forall|x: usize, nm: Seq<char>, r: int|
            #[trigger] reported_lookup(pre, x, nm, r) ==> reported_lookup(post, x, nm, r),
{
    assert forall|x: usize, nm: Seq<char>, r: int| #[trigger] reported_zero(pre, x, nm, r)
        implies reported_zero(post, x, nm, r) by {
        let i = choose|i: int|
            {
                &&& 0 <= i < pre.len()
                &&& (#[trigger] pre[i]) matches MockProverError::AssertZeroError {
                    expression,
                    name,
                    row,
                    ..
                } && expression == x && name@ == nm && row == r
            };
        assert(post[i] == pre[i]);
    }
    assert forall|l: usize, rr: usize, nm: Seq<char>, r: int| #[trigger] reported_eq(
        pre,
        l,
        rr,
        nm,
        r,
    ) implies reported_eq(post, l, rr, nm, r) by {
        let i = choose|i: int|
            {
                &&& 0 <= i < pre.len()
                &&& (#[trigger] pre[i]) matches MockProverError::AssertEqualError {
                    left_expression,
                    right_expression,
                    name,
                    row,
                    ..
                } && left_expression == l && right_expression == rr && name@ == nm && row == r
            };
        assert(post[i] == pre[i]);
    }
    assert forall|x: usize, nm: Seq<char>, r: int| #[trigger] reported_lookup(pre, x, nm, r)
        implies reported_lookup(post, x, nm, r) by {
        let i = choose|i: int|
            {
                &&& 0 <= i < pre.len()
                &&& (#[trigger] pre[i]) matches MockProverError::LookupError {
                    expression,
                    name,
                    row,
                    ..
                } && expression == x && name@ == nm && row == r
            };
        assert(post[i] == pre[i]);
    }
}

/// Whether some loaded table entry has the same field value as `x`.
fn table_contains(t_vec: &Vec<Ext>, x: Ext) -> (r: bool)
    ensures
        r == exists|j: int| 0 <= j < t_vec@.len() && (#[trigger] t_vec@[j])@ == x@,
{
    let mut i: usize = 0;
    while i < t_vec.len()
        invariant
            i <= t_vec@.len(),
            forall|j: int| 0 <= j < i ==> (#[trigger] t_vec@[j])@ != x@,
        decreases t_vec@.len() - i,
    {
        if t_vec[i].c0.as_u64() == x.c0.as_u64() && t_vec[i].c1.as_u64() == x.c1.as_u64() {
            return true;
        }
        i = i + 1;
    }
    false
}


/// Evaluates both sides of every assert-equal constraint on every row and
/// appends one error per row where they differ.
#[verifier::rlimit(60)]
fn check_eq_constraints(
    cb: &CircuitBuilder,
    wits: &Vec<Vec<Fp>>,
    fixed: &Vec<Vec<Fp>>,
    chv: &Vec<Ext>,
    empty_row: &Vec<Fp>,
    errors: &mut Vec<MockProverError>,
)
    requires
        chv@.len() == 2,
        empty_row@.len() == 0,
    ensures
        final(errors)@.len() >= old(errors)@.len(),
        forall|i: int| 0 <= i < old(errors)@.len() ==> final(errors)@[i] == old(errors)@[i],
        forall|i: int|
            old(errors)@.len() <= i < final(errors)@.len() ==> err_valid(
                cb.cs,
                wits@,
                fixed@,
                ext_views(chv@)[0],
                ext_views(chv@)[1],
                #[trigger] final(errors)@[i],
            ),
        forall|k: int, r: int|
            0 <= k < cb.cs.eq_constraints@.len() && 0 <= r < wits@.len() && !(#[trigger] eq_ok(
                cb.cs,
                wits@,
                fixed@,
                ext_views(chv@)[0],
                ext_views(chv@)[1],
                k,
                r,
            )) ==> reported_eq(
                final(errors)@,
                cb.cs.eq_constraints@[k].lhs,
                cb.cs.eq_constraints@[k].rhs,
                cb.cs.eq_constraints@[k].name@,
                r,
            ),
{
    let ghost c0 = ext_views(chv@)[0];
    let ghost c1 = ext_views(chv@)[1];
    proof {
        assert(ext_views(chv@) =~= seq![c0, c1]);
        assert(fp_views(empty_row@) =~= Seq::<nat>::empty());
    }
    let mut k: usize = 0;
    while k < cb.cs.eq_constraints.len()
        invariant
            chv@.len() == 2,
            empty_row@.len() == 0,
            c0 == ext_views(chv@)[0],
            c1 == ext_views(chv@)[1],
            k <= cb.cs.eq_constraints@.len(),
            errors@.len() >= old(errors)@.len(),
            forall|i: int| 0 <= i < old(errors)@.len() ==> errors@[i] == old(errors)@[i],
            forall|i: int|
                old(errors)@.len() <= i < errors@.len() ==> err_valid(
                    cb.cs,
                    wits@,
                    fixed@,
                    c0,
                    c1,
                    #[trigger] errors@[i],
                ),
            forall|k2: int, r2: int|
                0 <= k2 < k && 0 <= r2 < wits@.len() && !(#[trigger] eq_ok(
                    cb.cs,
                    wits@,
                    fixed@,
                    c0,
                    c1,
                    k2,
                    r2,
                )) ==> reported_eq(
                    errors@,
                    cb.cs.eq_constraints@[k2].lhs,
                    cb.cs.eq_constraints@[k2].rhs,
                    cb.cs.eq_constraints@[k2].name@,
                    r2,
                ),
        decreases cb.cs.eq_constraints@.len() - k,
    {
        let mut r: usize = 0;
        while r < wits.len()
            invariant
                chv@.len() == 2,
                empty_row@.len() == 0,
                c0 == ext_views(chv@)[0],
                c1 == ext_views(chv@)[1],
                k < cb.cs.eq_constraints@.len(),
                r <= wits@.len(),
                errors@.len() >= old(errors)@.len(),
                forall|i: int| 0 <= i < old(errors)@.len() ==> errors@[i] == old(errors)@[i],
                forall|i: int|
                    old(errors)@.len() <= i < errors@.len() ==> err_valid(
                        cb.cs,
                        wits@,
                        fixed@,
                        c0,
                        c1,
                        #[trigger] errors@[i],
                    ),
                forall|k2: int, r2: int|
                    0 <= k2 < k && 0 <= r2 < wits@.len() && !(#[trigger] eq_ok(
                        cb.cs,
                        wits@,
                        fixed@,
                        c0,
                        c1,
                        k2,
                        r2,
                    )) ==> reported_eq(
                        errors@,
                        cb.cs.eq_constraints@[k2].lhs,
                        cb.cs.eq_constraints@[k2].rhs,
                        cb.cs.eq_constraints@[k2].name@,
                        r2,
                    ),
                forall|r2: int|
                    0 <= r2 < r && !(#[trigger] eq_ok(cb.cs, wits@, fixed@, c0, c1, k as int, r2))
                        ==> reported_eq(
                        errors@,
                        cb.cs.eq_constraints@[k as int].lhs,
                        cb.cs.eq_constraints@[k as int].rhs,
                        cb.cs.eq_constraints@[k as int].name@,
                        r2,
                    ),
            decreases wits@.len() - r,
        {
            let ghost pre = errors@;
            let lhs = cb.cs.eq_constraints[k].lhs;
            let rhs = cb.cs.eq_constraints[k].rhs;
            let frow = if r < fixed.len() {
                &fixed[r]
            } else {
                empty_row
            };
            let lv = eval_expr(&cb.cs.nodes, lhs, &wits[r], frow, chv);
            let rv = eval_expr(&cb.cs.nodes, rhs, &wits[r], frow, chv);
            proof {
                assert(fp_views(wits@[r as int]@) == row_or_empty(wits@, r as int));
                if r < fixed@.len() {
                    assert(fp_views(frow@) == row_or_empty(fixed@, r as int));
                } else {
                    assert(fp_views(frow@) =~= row_or_empty(fixed@, r as int));
                }
                assert(ext_views(chv@) == seq![c0, c1]);
            }
            let differ = !(lv.c0.as_u64() == rv.c0.as_u64() && lv.c1.as_u64() == rv.c1.as_u64());
            if differ {
                let name = cb.cs.eq_constraints[k].name.clone();
                errors.push(
                    MockProverError::AssertEqualError {
                        left_expression: lhs,
                        right_expression: rhs,
                        left: lv,
                        right: rv,
                        name,
                        row: r,
                    },
                );
                proof {
                    lemma_reported_push_stable(pre, errors@, cb.cs);
                    let e = errors@.last();
                    assert(err_valid(cb.cs, wits@, fixed@, c0, c1, e)) by {
                        assert(0 <= k < cb.cs.eq_constraints@.len() && (
                        cb.cs.eq_constraints@[k as int]).lhs == lhs);
                    }
                    assert forall|r2: int|
                        0 <= r2 < r + 1 && !(#[trigger] eq_ok(
                        cb.cs,
                        wits@,
                        fixed@,
                        c0,
                        c1,
                        k as int,
                        r2,
                    )) implies reported_eq(
                        errors@,
                        cb.cs.eq_constraints@[k as int].lhs,
                        cb.cs.eq_constraints@[k as int].rhs,
                        cb.cs.eq_constraints@[k as int].name@,
                        r2,
                    ) by {
                        if r2 == r {
                            assert(errors@[errors@.len() - 1] == e);
                        }
                    }
                }
            } else {
                proof {
                    assert(eq_ok(cb.cs, wits@, fixed@, c0, c1, k as int, r as int));
                }
            }
            r = r + 1;
        }
        k = k + 1;
    }
}

/// Evaluates every lookup expression on every row and appends one error per
/// row whose value is absent from the loaded tables.
#[verifier::rlimit(60)]
fn check_lookups(
    cb: &CircuitBuilder,
    wits: &Vec<Vec<Fp>>,
    fixed: &Vec<Vec<Fp>>,
    chv: &Vec<Ext>,
    empty_row: &Vec<Fp>,
    t_vec: &Vec<Ext>,
    errors: &mut Vec<MockProverError>,
)
    requires
        chv@.len() == 2,
        empty_row@.len() == 0,
        t_vec@.len() == 32 + 65536,
        forall|j: int|
            0 <= j < 32 ==> (#[trigger] t_vec@[j])@ == lk_rlc(
                rom_tag(ROMType::U5),
                (j as nat, 0nat),
                ext_views(chv@)[0],
                ext_views(chv@)[1],
            ),
        forall|j: int|
            0 <= j < 65536 ==> (#[trigger] t_vec@[32 + j])@ == lk_rlc(
                rom_tag(ROMType::U16),
                (j as nat, 0nat),
                ext_views(chv@)[0],
                ext_views(chv@)[1],
            ),
    ensures
        final(errors)@.len() >= old(errors)@.len(),
        forall|i: int| 0 <= i < old(errors)@.len() ==> final(errors)@[i] == old(errors)@[i],
        forall|i: int|
            old(errors)@.len() <= i < final(errors)@.len() ==> err_valid(
                cb.cs,
                wits@,
                fixed@,
                ext_views(chv@)[0],
                ext_views(chv@)[1],
                #[trigger] final(errors)@[i],
            ),
        forall|k: int, r: int|
            0 <= k < cb.cs.lk_expressions@.len() && 0 <= r < wits@.len() && !(#[trigger] lookup_ok(
                cb.cs,
                wits@,
                fixed@,
                ext_views(chv@)[0],
                ext_views(chv@)[1],
                k,
                r,
            )) ==> reported_lookup(
                final(errors)@,
                cb.cs.lk_expressions@[k].expr,
                cb.cs.lk_expressions@[k].name@,
                r,
            ),
{
    let ghost c0 = ext_views(chv@)[0];
    let ghost c1 = ext_views(chv@)[1];
    proof {
        assert(ext_views(chv@) =~= seq![c0, c1]);
        assert(fp_views(empty_row@) =~= Seq::<nat>::empty());
    }
    let mut k: usize = 0;
    while k < cb.cs.lk_expressions.len()
        invariant
            chv@.len() == 2,
            empty_row@.len() == 0,
            c0 == ext_views(chv@)[0],
            c1 == ext_views(chv@)[1],
            t_vec@.len() == 32 + 65536,
            forall|j: int|
                0 <= j < 32 ==> (#[trigger] t_vec@[j])@ == lk_rlc(
                    rom_tag(ROMType::U5),
                    (j as nat, 0nat),
                    c0,
                    c1,
                ),
            forall|j: int|
                0 <= j < 65536 ==> (#[trigger] t_vec@[32 + j])@ == lk_rlc(
                    rom_tag(ROMType::U16),
                    (j as nat, 0nat),
                    c0,
                    c1,
                ),
            k <= cb.cs.lk_expressions@.len(),
            errors@.len() >= old(errors)@.len(),
            forall|i: int| 0 <= i < old(errors)@.len() ==> errors@[i] == old(errors)@[i],
            forall|i: int|
                old(errors)@.len() <= i < errors@.len() ==> err_valid(
                    cb.cs,
                    wits@,
                    fixed@,
                    c0,
                    c1,
                    #[trigger] errors@[i],
                ),
            forall|k2: int, r2: int|
                0 <= k2 < k && 0 <= r2 < wits@.len() && !(#[trigger] lookup_ok(
                    cb.cs,
                    wits@,
                    fixed@,
                    c0,
                    c1,
                    k2,
                    r2,
                )) ==> reported_lookup(
                    errors@,
                    cb.cs.lk_expressions@[k2].expr,
                    cb.cs.lk_expressions@[k2].name@,
                    r2,
                ),
        decreases cb.cs.lk_expressions@.len() - k,
    {
        let mut r: usize = 0;
        while r < wits.len()
            invariant
                chv@.len() == 2,
                empty_row@.len() == 0,
                c0 == ext_views(chv@)[0],
                c1 == ext_views(chv@)[1],
                t_vec@.len() == 32 + 65536,
                forall|j: int|
                    0 <= j < 32 ==> (#[trigger] t_vec@[j])@ == lk_rlc(
                        rom_tag(ROMType::U5),
                        (j as nat, 0nat),
                        c0,
                        c1,
                    ),
                forall|j: int|
                    0 <= j < 65536 ==> (#[trigger] t_vec@[32 + j])@ == lk_rlc(
                        rom_tag(ROMType::U16),
                        (j as nat, 0nat),
                        c0,
                        c1,
                    ),
                k < cb.cs.lk_expressions@.len(),
                r <= wits@.len(),
                errors@.len() >= old(errors)@.len(),
                forall|i: int| 0 <= i < old(errors)@.len() ==> errors@[i] == old(errors)@[i],
                forall|i: int|
                    old(errors)@.len() <= i < errors@.len() ==> err_valid(
                        cb.cs,
                        wits@,
                        fixed@,
                        c0,
                        c1,
                        #[trigger] errors@[i],
                    ),
                forall|k2: int, r2: int|
                    0 <= k2 < k && 0 <= r2 < wits@.len() && !(#[trigger] lookup_ok(
                        cb.cs,
                        wits@,
                        fixed@,
                        c0,
                        c1,
                        k2,
                        r2,
                    )) ==> reported_lookup(
                        errors@,
                        cb.cs.lk_expressions@[k2].expr,
                        cb.cs.lk_expressions@[k2].name@,
                        r2,
                    ),
                forall|r2: int|
                    0 <= r2 < r && !(#[trigger] lookup_ok(
                        cb.cs,
                        wits@,
                        fixed@,
                        c0,
                        c1,
                        k as int,
                        r2,
                    )) ==> reported_lookup(
                        errors@,
                        cb.cs.lk_expressions@[k as int].expr,
                        cb.cs.lk_expressions@[k as int].name@,
                        r2,
                    ),
            decreases wits@.len() - r,
        {
            let ghost pre = errors@;
            let expr = cb.cs.lk_expressions[k].expr;
            let frow = if r < fixed.len() {
                &fixed[r]
            } else {
                empty_row
            };
            let v = eval_expr(&cb.cs.nodes, expr, &wits[r], frow, chv);
            proof {
                assert(fp_views(wits@[r as int]@) == row_or_empty(wits@, r as int));
                if r < fixed@.len() {
                    assert(fp_views(frow@) == row_or_empty(fixed@, r as int));
                } else {
                    assert(fp_views(frow@) =~= row_or_empty(fixed@, r as int));
                }
                assert(ext_views(chv@) == seq![c0, c1]);
            }
            let found = table_contains(t_vec, v);
            proof {
                if found {
                    let j = choose|j: int|
                        0 <= j < t_vec@.len() && (#[trigger] t_vec@[j])@ == v@;
                    if j < 32 {
                        assert(v@ == lk_rlc(rom_tag(ROMType::U5), (j as nat, 0nat), c0, c1));
                        assert(in_tables(v@, c0, c1));
                    } else {
                        let jj = j - 32;
                        assert(t_vec@[32 + jj]@ == lk_rlc(
                            rom_tag(ROMType::U16),
                            (jj as nat, 0nat),
                            c0,
                            c1,
                        ));
                        assert(v@ == lk_rlc(rom_tag(ROMType::U16), (jj as nat, 0nat), c0, c1));
                        assert(in_tables(v@, c0, c1));
                    }
                } else {
                    if in_tables(v@, c0, c1) {
                        if exists|kk: int|
                            0 <= kk < 32 && v@ == #[trigger] lk_rlc(
                                rom_tag(ROMType::U5),
                                (kk as nat, 0nat),
                                c0,
                                c1,
                            ) {
                            let kk = choose|kk: int|
                                0 <= kk < 32 && v@ == #[trigger] lk_rlc(
                                    rom_tag(ROMType::U5),
                                    (kk as nat, 0nat),
                                    c0,
                                    c1,
                                );
                            assert((t_vec@[kk])@ == v@);
                            assert(false);
                        } else {
                            let kk = choose|kk: int|
                                0 <= kk < 65536 && v@ == #[trigger] lk_rlc(
                                    rom_tag(ROMType::U16),
                                    (kk as nat, 0nat),
                                    c0,
                                    c1,
                                );
                            assert((t_vec@[32 + kk])@ == v@);
                            assert(false);
                        }
                    }
                }
            }
            if !found {
                let name = cb.cs.lk_expressions[k].name.clone();
                errors.push(
                    MockProverError::LookupError { expression: expr, evaluated: v, name, row: r },
                );
                proof {
                    lemma_reported_push_stable(pre, errors@, cb.cs);
                    let e = errors@.last();
                    assert(err_valid(cb.cs, wits@, fixed@, c0, c1, e)) by {
                        assert(0 <= k < cb.cs.lk_expressions@.len() && (
                        cb.cs.lk_expressions@[k as int]).expr == expr);
                    }
                    assert forall|r2: int|
                        0 <= r2 < r + 1 && !(#[trigger] lookup_ok(
                        cb.cs,
                        wits@,
                        fixed@,
                        c0,
                        c1,
                        k as int,
                        r2,
                    )) implies reported_lookup(
                        errors@,
                        cb.cs.lk_expressions@[k as int].expr,
                        cb.cs.lk_expressions@[k as int].name@,
                        r2,
                    ) by {
                        if r2 == r {
                            assert(errors@[errors@.len() - 1] == e);
                        }
                    }
                }
            } else {
                proof {
                    assert(lookup_ok(cb.cs, wits@, fixed@, c0, c1, k as int, r as int));
                }
            }
            r = r + 1;
        }
        k = k + 1;
    }
}

/// The trace-satisfiability oracle.
pub struct MockProver {}

impl MockProver {
    /// Evaluates every registered constraint and lookup on every trace row
    /// and reports every violation: `Ok` exactly when the whole system is
    /// satisfied, otherwise the non-empty list of all violations, each of
    /// which names a real violated constraint instance.
    pub fn run(
        cb: &CircuitBuilder,
        wits: &Vec<Vec<Fp>>,
        fixed: &Vec<Vec<Fp>>,
        challenge: Option<(Ext, Ext)>,
    ) -> (r: Result<(), Vec<MockProverError>>)
        ensures
            r is Ok <==> all_satisfied(
                cb.cs,
                wits@,
                fixed@,
                chal_pair(challenge).0,
                chal_pair(challenge).1,
            ),
            r matches Err(errs) ==> {
                &&& errs@.len() > 0
                &&& forall|i: int|
                    0 <= i < errs@.len() ==> err_valid(
                        cb.cs,
                        wits@,
                        fixed@,
                        chal_pair(challenge).0,
                        chal_pair(challenge).1,
                        #[trigger] errs@[i],
                    )
                &&& covers(
                    cb.cs,
                    wits@,
                    fixed@,
                    chal_pair(challenge).0,
                    chal_pair(challenge).1,
                    errs@,
                )
            },
    {
        let ghost c0 = chal_pair(challenge).0;
        let ghost c1 = chal_pair(challenge).1;
        let (ce0, ce1) = match challenge {
            Some(c) => c,
            None => (Ext::one(), Ext::one()),
        };
        let mut chv: Vec<Ext> = Vec::new();
        chv.push(ce0);
        chv.push(ce1);
        proof {
            assert(ext_views(chv@) =~= seq![c0, c1]);
        }
        let empty_row: Vec<Fp> = Vec::new();
        let mut errors: Vec<MockProverError> = Vec::new();
        check_zero_constraints(cb, wits, fixed, &chv, &empty_row, &mut errors);
        let ghost n1 = errors@.len();
        check_eq_constraints(cb, wits, fixed, &chv, &empty_row, &mut errors);
        let ghost n2 = errors@.len();
        let mut t_vec: Vec<Ext> = Vec::new();
        load_u5_table(&mut t_vec, (ce0, ce1));
        let ghost tv5 = t_vec@;
        load_u16_table(&mut t_vec, (ce0, ce1));
        proof {
            assert forall|j: int| 0 <= j < 32 implies (#[trigger] t_vec@[j])@ == lk_rlc(
                rom_tag(ROMType::U5),
                (j as nat, 0nat),
                ext_views(chv@)[0],
                ext_views(chv@)[1],
            ) by {
                assert(t_vec@[j] == tv5[j]);
                assert(tv5[0 + j]@ == lk_rlc(rom_tag(ROMType::U5), (j as nat, 0nat), c0, c1));
            }
            assert forall|j: int| 0 <= j < 65536 implies (#[trigger] t_vec@[32 + j])@ == lk_rlc(
                rom_tag(ROMType::U16),
                (j as nat, 0nat),
                ext_views(chv@)[0],
                ext_views(chv@)[1],
            ) by {
                assert(t_vec@[tv5.len() as int + j]@ == lk_rlc(
                    rom_tag(ROMType::U16),
                    (j as nat, 0nat),
                    c0,
                    c1,
                ));
            }
        }
        check_lookups(cb, wits, fixed, &chv, &empty_row, &t_vec, &mut errors);
        proof {
            lemma_reported_push_stable(errors@.subrange(0, n1 as int), errors@, cb.cs);
            lemma_reported_push_stable(errors@.subrange(0, n2 as int), errors@, cb.cs);
            assert forall|i: int| 0 <= i < errors@.len() implies err_valid(
                cb.cs,
                wits@,
                fixed@,
                c0,
                c1,
                #[trigger] errors@[i],
            ) by {}
        }
        if errors.len() == 0 {
            proof {
                assert forall|k: int, r: int|
                    0 <= k < cb.cs.zero_constraints@.len() && 0 <= r < wits@.len()
                    implies #[trigger] zero_ok(cb.cs, wits@, fixed@, c0, c1, k, r) by {
                    if !zero_ok(cb.cs, wits@, fixed@, c0, c1, k, r) {
                        assert(reported_zero(
                            errors@,
                            cb.cs.zero_constraints@[k].expr,
                            cb.cs.zero_constraints@[k].name@,
                            r,
                        ));
                        assert(false);
                    }
                }
                assert forall|k: int, r: int|
                    0 <= k < cb.cs.eq_constraints@.len() && 0 <= r < wits@.len()
                    implies #[trigger] eq_ok(cb.cs, wits@, fixed@, c0, c1, k, r) by {
                    if !eq_ok(cb.cs, wits@, fixed@, c0, c1, k, r) {
                        assert(reported_eq(
                            errors@,
                            cb.cs.eq_constraints@[k].lhs,
                            cb.cs.eq_constraints@[k].rhs,
                            cb.cs.eq_constraints@[k].name@,
                            r,
                        ));
                        assert(false);
                    }
                }
                assert forall|k: int, r: int|
                    0 <= k < cb.cs.lk_expressions@.len() && 0 <= r < wits@.len()
                    implies #[trigger] lookup_ok(cb.cs, wits@, fixed@, c0, c1, k, r) by {
                    if !lookup_ok(cb.cs, wits@, fixed@, c0, c1, k, r) {
                        assert(reported_lookup(
                            errors@,
                            cb.cs.lk_expressions@[k].expr,
                            cb.cs.lk_expressions@[k].name@,
                            r,
                        ));
                        assert(false);
                    }
                }
            }
            Ok(())
        } else {
            proof {
                let e = errors@[0];
                assert(err_valid(cb.cs, wits@, fixed@, c0, c1, e));
                match e {
                    MockProverError::AssertZeroError { expression, evaluated, name, row } => {
                        let k = choose|k: int|
                            {
                                &&& 0 <= k < cb.cs.zero_constraints@.len()
                                &&& (#[trigger] cb.cs.zero_constraints@[k]).expr == expression
                                &&& cb.cs.zero_constraints@[k].name@ == name@
                                &&& row < wits@.len()
                                &&& evaluated@ == eval_node(
                                    cb.cs.nodes@,
                                    expression as int,
                                    row_or_empty(wits@, row as int),
                                    row_or_empty(fixed@, row as int),
                                    seq![c0, c1],
                                )
                                &&& evaluated@ != (0nat, 0nat)
                            };
                        assert(!zero_ok(cb.cs, wits@, fixed@, c0, c1, k, row as int));
                    },
                    MockProverError::AssertEqualError {
                        left_expression,
                        right_expression,
                        left,
                        right,
                        name,
                        row,
                    } => {
                        let k = choose|k: int|
                            {
                                &&& 0 <= k < cb.cs.eq_constraints@.len()
                                &&& (#[trigger] cb.cs.eq_constraints@[k]).lhs == left_expression
                                &&& cb.cs.eq_constraints@[k].rhs == right_expression
                                &&& cb.cs.eq_constraints@[k].name@ == name@
                                &&& row < wits@.len()
                                &&& left@ == eval_node(
                                    cb.cs.nodes@,
                                    left_expression as int,
                                    row_or_empty(wits@, row as int),
                                    row_or_empty(fixed@, row as int),
                                    seq![c0, c1],
                                )
                                &&& right@ == eval_node(
                                    cb.cs.nodes@,
                                    right_expression as int,
                                    row_or_empty(wits@, row as int),
                                    row_or_empty(fixed@, row as int),
                                    seq![c0, c1],
                                )
                                &&& left@ != right@
                            };
                        assert(!eq_ok(cb.cs, wits@, fixed@, c0, c1, k, row as int));
                    },
                    MockProverError::LookupError { expression, evaluated, name, row } => {
                        let k = choose|k: int|
                            {
                                &&& 0 <= k < cb.cs.lk_expressions@.len()
                                &&& (#[trigger] cb.cs.lk_expressions@[k]).expr == expression
                                &&& cb.cs.lk_expressions@[k].name@ == name@
                                &&& row < wits@.len()
                                &&& evaluated@ == eval_node(
                                    cb.cs.nodes@,
                                    expression as int,
                                    row_or_empty(wits@, row as int),
                                    row_or_empty(fixed@, row as int),
                                    seq![c0, c1],
                                )
                                &&& !in_tables(evaluated@, c0, c1)
                            };
                        assert(!lookup_ok(cb.cs, wits@, fixed@, c0, c1, k, row as int));
                    },
                }
            }
            Err(errors)
        }
    }

    /// Whether the whole recorded system is satisfied by the trace: the
    /// loud top-level check tests assert on.
    pub fn assert_satisfied(
        cb: &CircuitBuilder,
        wits: &Vec<Vec<Fp>>,
        fixed: &Vec<Vec<Fp>>,
        challenge: Option<(Ext, Ext)>,
    ) -> (r: bool)
        ensures
            r == all_satisfied(
                cb.cs,
                wits@,
                fixed@,
                chal_pair(challenge).0,
                chal_pair(challenge).1,
            ),
    {
        match Self::run(cb, wits, fixed, challenge) {
            Ok(_) => true,
            Err(_) => false,
        }
    }
}

} // verus!