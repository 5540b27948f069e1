//! The prime field all circuit arithmetic is carried out over, and the
//! degree-two extension of it used for lookup challenges.
//!
//! An element of the base field is a residue modulo the 64-bit prime
//! `2^64 - 2^32 + 1`; an element of the extension is a pair `(c0, c1)`
//! standing for `c0 + c1·X` with `X^2 = 7`.

use vstd::prelude::*;

verus! {

use vstd::arithmetic::div_mod::lemma_small_mod;
use vstd::arithmetic::div_mod::lemma_mod_sub_multiples_vanish;

/// The prime modulus `2^64 - 2^32 + 1`.
pub const FIELD_MODULUS: u64 = 0xffff_ffff_0000_0001;

/// The quadratic non-residue `X^2` equals in the extension field.
pub const EXT_NONRESIDUE: u64 = 7;

/// Addition of residues, on mathematical integers.
pub open spec fn fadd(a: nat, b: nat) -> nat {
    ((a + b) % (FIELD_MODULUS as nat)) as nat
}

/// Subtraction of residues, on mathematical integers.
pub open spec fn fsub(a: nat, b: nat) -> nat {
    (((a as int) - (b as int)) % (FIELD_MODULUS as int)) as nat
}

/// Multiplication of residues, on mathematical integers.
pub open spec fn fmul(a: nat, b: nat) -> nat {
    ((a * b) % (FIELD_MODULUS as nat)) as nat
}

/// Negation of a residue, on mathematical integers.
pub open spec fn fneg(a: nat) -> nat {
    ((0 - (a as int)) % (FIELD_MODULUS as int)) as nat
}

/// Exponentiation of a residue, on mathematical integers.
pub open spec fn fpow(b: nat, e: nat) -> nat
    decreases e,
{
    if e == 0 {
        1
    } else {
        fmul(b, fpow(b, (e - 1) as nat))
    }
}

/// The inverse witness of a field element: `x^(p−2)` for nonzero `x`, zero
/// for zero. By Fermat's little theorem the power is the multiplicative
/// inverse of every nonzero element of a prime field; no contract relies on
/// that number-theoretic fact — callers get the exact value instead, and the
/// oracle tests exercise its inverse behaviour at runtime.
pub open spec fn inv_value(x: nat) -> nat {
    if x == 0 {
        0
    } else {
        fpow(x, (FIELD_MODULUS - 2) as nat)
    }
}

/// A power of a residue is itself reduced.
pub proof fn lemma_fpow_bound(b: nat, e: nat)
    ensures
        fpow(b, e) < FIELD_MODULUS,
{
    if e != 0 {
        assert(fpow(b, e) == fmul(b, fpow(b, (e - 1) as nat)));
    }
}

/// Residue multiplication is associative.
pub proof fn lemma_fmul_assoc(a: nat, b: nat, c: nat)
    ensures
        fmul(a, fmul(b, c)) == fmul(fmul(a, b), c),
{
    let p = FIELD_MODULUS as int;
    vstd::arithmetic::div_mod::lemma_mul_mod_noop_right(a as int, (b * c) as int, p);
    vstd::arithmetic::div_mod::lemma_mul_mod_noop_left((a * b) as int, c as int, p);
    vstd::arithmetic::mul::lemma_mul_is_associative(a as int, b as int, c as int);
}

/// Splitting an exponent splits the power.
pub proof fn lemma_fpow_add(b: nat, e1: nat, e2: nat)
    ensures
        fpow(b, e1 + e2) == fmul(fpow(b, e1), fpow(b, e2)),
    decreases e1,
{
    if e1 == 0 {
        lemma_fpow_bound(b, e2);
        lemma_small_mod(fpow(b, e2), FIELD_MODULUS as nat);
        assert(fmul(1, fpow(b, e2)) == fpow(b, e2));
    } else {
        lemma_fpow_add(b, (e1 - 1) as nat, e2);
        lemma_fmul_assoc(b, fpow(b, (e1 - 1) as nat), fpow(b, e2));
    }
}

/// A power of an even exponent is a power of the square.
pub proof fn lemma_fpow_square(b: nat, e: nat)
    ensures
        fpow(b, 2 * e) == fpow(fmul(b, b), e),
    decreases e,
{
    if e != 0 {
        lemma_fpow_square(b, (e - 1) as nat);
        lemma_fpow_add(b, 2, 2 * (e - 1) as nat);
        vstd::arithmetic::div_mod::lemma_mul_mod_noop_right(
            b as int,
            b as int,
            FIELD_MODULUS as int,
        );
        assert(fpow(b, 0) == 1);
        assert(fpow(b, 1) == fmul(b, fpow(b, 0)));
        assert(fpow(b, 2) == fmul(b, fpow(b, 1)));
        assert(fpow(b, 2) == fmul(b, fmul(b, 1)));
        assert(fmul(b, fmul(b, 1)) == fmul(b, b)) by {
            vstd::arithmetic::div_mod::lemma_mul_mod_noop_right(b as int, b as int, FIELD_MODULUS as int);
        }
        assert(fpow(fmul(b, b), e) == fmul(fmul(b, b), fpow(fmul(b, b), (e - 1) as nat)));
    }
}

/// An element of the base field, kept reduced modulo `FIELD_MODULUS`.
#[derive(Clone, Copy, Debug, PartialEq, Eq, Structural)]
pub struct Fp {
    v: u64,
}

impl View for Fp {
    type V = nat;

    closed spec fn view(&self) -> nat {
        self.v as nat
    }
}

impl Fp {
    #[verifier::type_invariant]
    pub closed spec fn reduced(self) -> bool {
        self.v < FIELD_MODULUS
    }

    pub fn zero() -> (r: Fp)
        ensures
            r@ == 0,
    {
        Fp { v: 0 }
    }

    pub fn one() -> (r: Fp)
        ensures
            r@ == 1,
    {
        Fp { v: 1 }
    }

    /// Embeds an integer by reducing it modulo the field order.
    pub fn from_u64(x: u64) -> (r: Fp)
        ensures
            r@ == (x as nat) % (FIELD_MODULUS as nat),
    {
        Fp { v: x % FIELD_MODULUS }
    }

    /// Embeds a 32-bit integer; no reduction is needed.
    pub fn from_u32(x: u32) -> (r: Fp)
        ensures
            r@ == x as nat,
    {
        Fp { v: x as u64 }
    }

    pub fn as_u64(&self) -> (r: u64)
        ensures
            r as nat == self@,
            r < FIELD_MODULUS,
    {
        proof {
            use_type_invariant(self);
        }
        self.v
    }

    pub fn add(self, other: Fp) -> (r: Fp)
        ensures
            r@ == fadd(self@, other@),
    {
        proof {
            use_type_invariant(&self);
            use_type_invariant(&other);
        }
        let m: u128 = FIELD_MODULUS as u128;
        let s: u128 = self.v as u128 + other.v as u128;
        let red: u64 = if s >= m {
            (s - m) as u64
        } else {
            s as u64
        };
        proof {
            if s >= m {
                lemma_mod_sub_multiples_vanish(s as int, FIELD_MODULUS as int);
                lemma_small_mod((s - m) as nat, FIELD_MODULUS as nat);
            } else {
                lemma_small_mod(s as nat, FIELD_MODULUS as nat);
            }
        }
        Fp { v: red }
    }

    pub fn sub(self, other: Fp) -> (r: Fp)
        ensures
            r@ == fsub(self@, other@),
    {
        proof {
            use_type_invariant(&self);
            use_type_invariant(&other);
        }
        let red: u64 = if self.v >= other.v {
            self.v - other.v
        } else {
            FIELD_MODULUS - (other.v - self.v)
        };
        proof {
            if self.v >= other.v {
                lemma_small_mod((self.v - other.v) as nat, FIELD_MODULUS as nat);
            } else {
                lemma_mod_sub_multiples_vanish(
                    (self.v as int) - (other.v as int),
                    FIELD_MODULUS as int,
                );
                lemma_small_mod(red as nat, FIELD_MODULUS as nat);
            }
        }
        Fp { v: red }
    }

    pub fn neg(self) -> (r: Fp)
        ensures
            r@ == fneg(self@),
    {
        Fp::zero().sub(self)
    }

    pub fn mul(self, other: Fp) -> (r: Fp)
        ensures
            r@ == fmul(self@, other@),
    {
        proof {
            use_type_invariant(&self);
            use_type_invariant(&other);
        }
        let a: u128 = self.v as u128;
        let b: u128 = other.v as u128;
        proof {
            assert(a * b < 0x1_0000_0000_0000_0000_0000_0000_0000_0000) by (nonlinear_arith)
                requires
                    a < 0x1_0000_0000_0000_0000,
                    b < 0x1_0000_0000_0000_0000,
            ;
        }
        let prod: u128 = a * b;
        let red: u64 = (prod % (FIELD_MODULUS as u128)) as u64;
        Fp { v: red }
    }

    /// Raises the element to a power, by binary exponentiation.
    pub fn pow(self, e: u64) -> (r: Fp)
        ensures
            r@ == fpow(self@, e as nat),
    {
        let mut base = self;
        let mut exp: u64 = e;
        let mut acc = Fp::one();
        proof {
            lemma_fpow_bound(self@, e as nat);
            lemma_small_mod(fpow(self@, e as nat), FIELD_MODULUS as nat);
        }
        while exp > 0
            invariant
                fmul(acc@, fpow(base@, exp as nat)) == fpow(self@, e as nat),
            decreases exp,
        {
            let ghost acc0 = acc@;
            let ghost base0 = base@;
            let ghost exp0 = exp as nat;
            let odd = exp & 1 == 1;
            if odd {
                acc = acc.mul(base);
            }
            base = base.mul(base);
            proof {
                assert((exp >> 1) < exp && (exp >> 1) == exp / 2 && (exp & 1) == exp % 2)
                    by (bit_vector)
                    requires
                        exp > 0,
                ;
            }
            exp = exp >> 1;
            proof {
                let k = exp as nat;
                lemma_fpow_square(base0, k);
                if odd {
                    assert(exp0 == 2 * k + 1);
                    lemma_fpow_add(base0, 1, 2 * k);
                    assert(fpow(base0, 0) == 1);
                    assert(fpow(base0, 1) == fmul(base0, fpow(base0, 0)));
                    assert(fmul(base0, 1) == (base0 * 1) % (FIELD_MODULUS as nat));
                    lemma_fmul_assoc(acc0, fpow(base0, 1), fpow(base0, 2 * k));
                    lemma_fmul_assoc(acc0, base0 % (FIELD_MODULUS as nat), fpow(base0, 2 * k));
                    assert(fmul(acc0, base0 % (FIELD_MODULUS as nat)) == fmul(acc0, base0)) by {
                        vstd::arithmetic::div_mod::lemma_mul_mod_noop_right(
                            acc0 as int,
                            base0 as int,
                            FIELD_MODULUS as int,
                        );
                    }
                } else {
                    assert(exp0 == 2 * k);
                }
            }
        }
        proof {
            use_type_invariant(&acc);
            lemma_small_mod(acc@, FIELD_MODULUS as nat);
            assert(fpow(base@, 0) == 1);
            assert(fmul(acc@, 1) == (acc@ * 1) % (FIELD_MODULUS as nat));
            assert(fmul(acc@, fpow(base@, 0)) == acc@);
        }
        acc
    }

    /// The inverse witness of the element: exactly `inv_value` of its
    /// residue, computed as `x^(p−2)` for nonzero `x` and zero for zero.
    pub fn inverse(self) -> (r: Fp)
        ensures
            r@ == inv_value(self@),
    {
        if self.as_u64() == 0 {
            Fp::zero()
        } else {
            self.pow(FIELD_MODULUS - 2)
        }
    }
}

/// Addition in the extension field, componentwise on residue pairs.
pub open spec fn e_add(a: (nat, nat), b: (nat, nat)) -> (nat, nat) {
    (fadd(a.0, b.0), fadd(a.1, b.1))
}

/// Subtraction in the extension field.
pub open spec fn e_sub(a: (nat, nat), b: (nat, nat)) -> (nat, nat) {
    (fsub(a.0, b.0), fsub(a.1, b.1))
}

/// Multiplication in the extension field: `(a0 + a1·X)(b0 + b1·X)` with
/// `X^2 = EXT_NONRESIDUE`.
pub open spec fn e_mul(a: (nat, nat), b: (nat, nat)) -> (nat, nat) {
    (
        fadd(fmul(a.0, b.0), fmul(EXT_NONRESIDUE as nat, fmul(a.1, b.1))),
        fadd(fmul(a.0, b.1), fmul(a.1, b.0)),
    )
}

/// The embedding of a base-field residue into the extension.
pub open spec fn e_from_base(a: nat) -> (nat, nat) {
    (a, 0)
}

/// Exponentiation in the extension field.
pub open spec fn e_pow(base: (nat, nat), e: nat) -> (nat, nat)
    decreases e,
{
    if e == 0 {
        (1, 0)
    } else {
        e_mul(base, e_pow(base, (e - 1) as nat))
    }
}

/// Multiplying by `FIELD_MODULUS - 1` negates a residue.
pub proof fn lemma_fmul_neg_one(x: nat)
    ensures
        fmul(x, (FIELD_MODULUS - 1) as nat) == fneg(x),
{
    let p = FIELD_MODULUS as int;
    let k = (FIELD_MODULUS - 1) as int;
    assert((x as int) * k == p * (x as int) + (0 - (x as int))) by (nonlinear_arith)
        requires
            k == p - 1,
    ;
    vstd::arithmetic::div_mod::lemma_mod_multiples_vanish(x as int, 0 - (x as int), p);
}

/// Folding a negation into an addition: `a + (0 - b) == a - b` on residues.
pub proof fn lemma_fadd_fneg(a: nat, b: nat)
    ensures
        fadd(a, fneg(b)) == fsub(a, b),
{
    let p = FIELD_MODULUS as int;
    let r = (0 - (b as int)) % p;
    let q = (0 - (b as int)) / p;
    vstd::arithmetic::div_mod::lemma_fundamental_div_mod(0 - (b as int), p);
    assert((a as int) + r == p * (0 - q) + ((a as int) - (b as int))) by (nonlinear_arith)
        requires
            0 - (b as int) == p * q + r,
    ;
    vstd::arithmetic::div_mod::lemma_mod_multiples_vanish(0 - q, (a as int) - (b as int), p);
}

/// In the extension field, multiplying by the embedded `FIELD_MODULUS - 1`
/// and adding zero negates an element.
pub proof fn lemma_e_mul_neg_one(a: (nat, nat))
    ensures
        e_add(
            e_mul(a, (((FIELD_MODULUS - 1) as nat) % (FIELD_MODULUS as nat), 0nat)),
            (0nat, 0nat),
        ) == e_sub((0nat, 0nat), a),
{
    let pn = FIELD_MODULUS as nat;
    lemma_small_mod((FIELD_MODULUS - 1) as nat, pn);
    let k = (FIELD_MODULUS - 1) as nat;
    lemma_fmul_neg_one(a.0);
    lemma_fmul_neg_one(a.1);
    let m = e_mul(a, (k, 0nat));
    assert(fmul(a.1, 0) == 0);
    assert(fmul(EXT_NONRESIDUE as nat, 0) == 0);
    assert(m.0 == fadd(fneg(a.0), 0));
    assert(m.1 == fadd(0, fneg(a.1)));
    lemma_small_mod(fneg(a.0), pn);
    lemma_small_mod(fneg(a.1), pn);
}

/// Adding zero to a reduced pair changes nothing.
pub proof fn lemma_e_add_zero_right(a: (nat, nat))
    requires
        a.0 < FIELD_MODULUS,
        a.1 < FIELD_MODULUS,
    ensures
        e_add(a, (0nat, 0nat)) == a,
{
    lemma_small_mod(a.0, FIELD_MODULUS as nat);
    lemma_small_mod(a.1, FIELD_MODULUS as nat);
}

/// In the extension field, adding a negation subtracts.
pub proof fn lemma_e_add_neg(a: (nat, nat), b: (nat, nat))
    ensures
        e_add(a, e_sub((0nat, 0nat), b)) == e_sub(a, b),
{
    lemma_fadd_fneg(a.0, b.0);
    lemma_fadd_fneg(a.1, b.1);
}

/// An element of the quadratic extension field.
#[derive(Clone, Copy, Debug, PartialEq, Eq, Structural)]
pub struct Ext {
    pub c0: Fp,
    pub c1: Fp,
}

impl View for Ext {
    type V = (nat, nat);

    open spec fn view(&self) -> (nat, nat) {
        (self.c0@, self.c1@)
    }
}

impl Ext {
    pub fn zero() -> (r: Ext)
        ensures
            r@ == (0nat, 0nat),
    {
        Ext { c0: Fp::zero(), c1: Fp::zero() }
    }

    pub fn one() -> (r: Ext)
        ensures
            r@ == (1nat, 0nat),
    {
        Ext { c0: Fp::one(), c1: Fp::zero() }
    }

    pub fn from_base(a: Fp) -> (r: Ext)
        ensures
            r@ == e_from_base(a@),
    {
        Ext { c0: a, c1: Fp::zero() }
    }

    pub fn from_u64(x: u64) -> (r: Ext)
        ensures
            r@ == e_from_base((x as nat) % (FIELD_MODULUS as nat)),
    {
        Ext { c0: Fp::from_u64(x), c1: Fp::zero() }
    }

    pub fn add(self, other: Ext) -> (r: Ext)
        ensures
            r@ == e_add(self@, other@),
    {
        Ext { c0: self.c0.add(other.c0), c1: self.c1.add(other.c1) }
    }

    pub fn sub(self, other: Ext) -> (r: Ext)
        ensures
            r@ == e_sub(self@, other@),
    {
        Ext { c0: self.c0.sub(other.c0), c1: self.c1.sub(other.c1) }
    }

    pub fn mul(self, other: Ext) -> (r: Ext)
        ensures
            r@ == e_mul(self@, other@),
    {
        let w = Fp::from_u64(EXT_NONRESIDUE);
        let c0 = self.c0.mul(other.c0).add(w.mul(self.c1.mul(other.c1)));
        let c1 = self.c0.mul(other.c1).add(self.c1.mul(other.c0));
        proof {
            assert((EXT_NONRESIDUE as nat) % (FIELD_MODULUS as nat) == EXT_NONRESIDUE as nat) by {
                lemma_small_mod(EXT_NONRESIDUE as nat, FIELD_MODULUS as nat);
            }
        }
        Ext { c0, c1 }
    }

    /// Raises the element to a power, by repeated multiplication.
    pub fn pow(self, e: usize) -> (r: Ext)
        ensures
            r@ == e_pow(self@, e as nat),
    {
        let mut acc = Ext::one();
        let mut i: usize = 0;
        while i < e
            invariant
                i <= e,
                acc@ == e_pow(self@, i as nat),
            decreases e - i,
        {
            acc = self.mul(acc);
            i = i + 1;
        }
        acc
    }

    pub fn is_zero(&self) -> (r: bool)
        ensures
            r == (self@ == (0nat, 0nat)),
    {
        self.c0.as_u64() == 0 && self.c1.as_u64() == 0
    }
}

} // verus!
