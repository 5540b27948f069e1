//! The constraint system and its builder: witness/fixed column registration,
//! named assert-zero / assert-equal constraints, and lookup registration,
//! all recorded during a structural construction pass. No numeric work
//! happens here; the oracle interprets the recorded system later.

use vstd::prelude::*;
use vstd::string::StringExecFns;

use crate::error::ZKVMError;
use crate::expr::{eval_node, ExprNode, Fixed, WitIn};
use crate::field::{e_add, e_mul, e_pow, e_sub, Ext, Fp, FIELD_MODULUS};

verus! {

/// The value of a challenge reference with unit scalar and zero offset.
pub open spec fn chal_eval(c: (nat, nat), power: nat) -> (nat, nat) {
    e_add(e_mul((1nat, 0nat), e_pow(c, power)), (0nat, 0nat))
}

/// The random-linear-combination encoding of a lookup record `(tag, x)`:
/// `α + tag·β^0 + x·β^1`, written exactly as the registered expression
/// evaluates, with `c0` standing for `α` and `c1` for `β`.
pub open spec fn lk_rlc(tag: nat, x: (nat, nat), c0: (nat, nat), c1: (nat, nat)) -> (nat, nat) {
    e_add(
        e_mul(x, chal_eval(c1, 1)),
        e_add(
            e_mul((tag % (FIELD_MODULUS as nat), 0nat), chal_eval(c1, 0)),
            chal_eval(c0, 1),
        ),
    )
}

/// The tag of one lookup table: a finite enumeration of the valid values of
/// a named range, or of well-formed instruction records.
#[derive(Clone, Copy, Debug, PartialEq, Eq, Structural)]
pub enum ROMType {
    U5,
    U16,
    And,
    Ltu,
    Instruction,
}

/// The field constant each table tag is encoded as inside a lookup record.
pub open spec fn rom_tag(t: ROMType) -> nat {
    match t {
        ROMType::U5 => 0,
        ROMType::U16 => 1,
        ROMType::And => 2,
        ROMType::Ltu => 3,
        ROMType::Instruction => 4,
    }
}

/// Exec counterpart of `rom_tag`.
pub fn rom_tag_u64(t: ROMType) -> (r: u64)
    ensures
        r as nat == rom_tag(t),
{
    match t {
        ROMType::U5 => 0,
        ROMType::U16 => 1,
        ROMType::And => 2,
        ROMType::Ltu => 3,
        ROMType::Instruction => 4,
    }
}

/// A named assert-zero constraint: the expression must evaluate to zero on
/// every row.
pub struct Constraint {
    pub name: String,
    pub expr: usize,
}

/// A named assert-equal constraint, tracked separately from assert-zero so
/// that a failure can report both sides.
pub struct EqConstraint {
    pub name: String,
    pub lhs: usize,
    pub rhs: usize,
}

/// A named lookup: the expression's per-row value must appear in the
/// combined encoding of the loaded lookup tables.
pub struct Lookup {
    pub name: String,
    pub expr: usize,
}

/// The table side of a lookup argument: a record expression enumerated over
/// `len` rows, with a multiplicity column counting how often each row is hit.
pub struct LookupTable {
    pub name: String,
    pub len: usize,
    pub record: usize,
    pub multiplicity: usize,
}

/// The sequence of character views of a sequence of strings.
pub open spec fn names_view(s: Seq<String>) -> Seq<Seq<char>> {
    s.map_values(|x: String| x@)
}

/// The diagnostic prefix a namespace stack contributes to a constraint name:
/// every segment followed by a slash.
pub open spec fn path_prefix(segs: Seq<Seq<char>>) -> Seq<char>
    decreases segs.len(),
{
    if segs.len() == 0 {
        Seq::empty()
    } else {
        path_prefix(segs.drop_last()) + segs.last() + "/"@
    }
}

/// The full diagnostic name of an item registered under a namespace stack.
pub open spec fn qualified(ns: Seq<String>, leaf: Seq<char>) -> Seq<char> {
    path_prefix(names_view(ns)) + leaf
}

/// An ordered record of everything registered during circuit construction.
pub struct ConstraintSystem {
    /// Arena of expression nodes; constraints refer into it by index.
    pub nodes: Vec<ExprNode>,
    /// One diagnostic name per witness column; the length is the column count.
    pub witin_names: Vec<String>,
    /// One diagnostic name per fixed column.
    pub fixed_names: Vec<String>,
    /// The current namespace stack, used to qualify registered names.
    pub ns: Vec<String>,
    pub zero_constraints: Vec<Constraint>,
    pub eq_constraints: Vec<EqConstraint>,
    pub lk_expressions: Vec<Lookup>,
    pub lk_tables: Vec<LookupTable>,
}

impl ConstraintSystem {
    pub fn new(root: &str) -> (r: ConstraintSystem)
        ensures
            r.nodes@ == Seq::<ExprNode>::empty(),
            r.witin_names@ == Seq::<String>::empty(),
            r.fixed_names@ == Seq::<String>::empty(),
            names_view(r.ns@) == seq![root@],
            r.zero_constraints@ == Seq::<Constraint>::empty(),
            r.eq_constraints@ == Seq::<EqConstraint>::empty(),
            r.lk_expressions@ == Seq::<Lookup>::empty(),
            r.lk_tables@ == Seq::<LookupTable>::empty(),
    {
        let mut ns: Vec<String> = Vec::new();
        ns.push(String::from_str(root));
        proof {
            assert(names_view(ns@) =~= seq![root@]);
        }
        ConstraintSystem {
            nodes: Vec::new(),
            witin_names: Vec::new(),
            fixed_names: Vec::new(),
            ns,
            zero_constraints: Vec::new(),
            eq_constraints: Vec::new(),
            lk_expressions: Vec::new(),
            lk_tables: Vec::new(),
        }
    }

    /// The number of witness columns registered so far.
    pub fn num_witin(&self) -> (r: usize)
        ensures
            r == self.witin_names@.len(),
    {
        self.witin_names.len()
    }

    /// The number of fixed columns registered so far.
    pub fn num_fixed(&self) -> (r: usize)
        ensures
            r == self.fixed_names@.len(),
    {
        self.fixed_names.len()
    }
}

/// The namespace stack is unchanged and everything already registered is
/// still there, unchanged: what every builder call guarantees.
pub open spec fn cs_extends(post: ConstraintSystem, pre: ConstraintSystem) -> bool {
    &&& pre.nodes@.len() <= post.nodes@.len()
    &&& forall|j: int| 0 <= j < pre.nodes@.len() ==> pre.nodes@[j] == post.nodes@[j]
    &&& pre.witin_names@.len() <= post.witin_names@.len()
    &&& pre.fixed_names@.len() <= post.fixed_names@.len()
    &&& post.ns@ == pre.ns@
    &&& pre.zero_constraints@.is_prefix_of(post.zero_constraints@)
    &&& pre.eq_constraints@.is_prefix_of(post.eq_constraints@)
    &&& pre.lk_expressions@.is_prefix_of(post.lk_expressions@)
    &&& pre.lk_tables@.is_prefix_of(post.lk_tables@)
}

/// Builds a constraint system by appending columns, expression nodes and
/// named constraints.
pub struct CircuitBuilder {
    pub cs: ConstraintSystem,
}

/// The fully qualified diagnostic name of an item registered as `leaf` under
/// the namespace stack `ns`.
fn qualified_name(ns: &Vec<String>, leaf: &str) -> (r: String)
    ensures
        r@ == qualified(ns@, leaf@),
{
    let mut acc = String::new();
    let mut i: usize = 0;
    while i < ns.len()
        invariant
            i <= ns.len(),
            acc@ == path_prefix(names_view(ns@).subrange(0, i as int)),
        decreases ns.len() - i,
    {
        acc.append(ns[i].as_str());
        acc.append("/");
        proof {
            let full = names_view(ns@);
            assert(full.subrange(0, i as int + 1).drop_last() =~= full.subrange(0, i as int));
            assert(full.subrange(0, i as int + 1).last() == ns@[i as int]@);
        }
        i = i + 1;
    }
    proof {
        assert(names_view(ns@).subrange(0, ns@.len() as int) =~= names_view(ns@));
    }
    acc.concat(leaf)
}

impl CircuitBuilder {
    pub fn new(cs: ConstraintSystem) -> (r: CircuitBuilder)
        ensures
            r.cs == cs,
    {
        CircuitBuilder { cs }
    }

    /// Opens a namespace: names registered until the matching pop are
    /// prefixed with `name`.
    pub fn push_namespace(&mut self, name: &str)
        ensures
            names_view(final(self).cs.ns@) == names_view(old(self).cs.ns@).push(name@),
            final(self).cs.ns@.len() == old(self).cs.ns@.len() + 1,
            final(self).cs.ns@.drop_last() == old(self).cs.ns@,
            final(self).cs.nodes@ == old(self).cs.nodes@,
            final(self).cs.witin_names@ == old(self).cs.witin_names@,
            final(self).cs.fixed_names@ == old(self).cs.fixed_names@,
            final(self).cs.zero_constraints@ == old(self).cs.zero_constraints@,
            final(self).cs.eq_constraints@ == old(self).cs.eq_constraints@,
            final(self).cs.lk_expressions@ == old(self).cs.lk_expressions@,
            final(self).cs.lk_tables@ == old(self).cs.lk_tables@,
    {
        self.cs.ns.push(String::from_str(name));
        proof {
            assert(names_view(self.cs.ns@) =~= names_view(old(self).cs.ns@).push(name@));
            assert(self.cs.ns@.drop_last() =~= old(self).cs.ns@);
        }
    }

    /// Closes the innermost namespace; on an empty stack it does nothing.
    pub fn pop_namespace(&mut self)
        ensures
            final(self).cs.ns@ == if old(self).cs.ns@.len() > 0 {
                old(self).cs.ns@.drop_last()
            } else {
                old(self).cs.ns@
            },
            final(self).cs.nodes@ == old(self).cs.nodes@,
            final(self).cs.witin_names@ == old(self).cs.witin_names@,
            final(self).cs.fixed_names@ == old(self).cs.fixed_names@,
            final(self).cs.zero_constraints@ == old(self).cs.zero_constraints@,
            final(self).cs.eq_constraints@ == old(self).cs.eq_constraints@,
            final(self).cs.lk_expressions@ == old(self).cs.lk_expressions@,
            final(self).cs.lk_tables@ == old(self).cs.lk_tables@,
    {
        if self.cs.ns.len() > 0 {
            self.cs.ns.pop();
        }
    }

    /// Registers a fresh witness column and hands back its handle.
    pub fn create_witin(&mut self, name: &str) -> (w: WitIn)
        ensures
            w.id == old(self).cs.witin_names@.len(),
            final(self).cs.witin_names@.len() == old(self).cs.witin_names@.len() + 1,
            names_view(final(self).cs.witin_names@) == names_view(old(self).cs.witin_names@).push(
                qualified(old(self).cs.ns@, name@),
            ),
            final(self).cs.nodes@ == old(self).cs.nodes@,
            final(self).cs.fixed_names@ == old(self).cs.fixed_names@,
            final(self).cs.ns@ == old(self).cs.ns@,
            final(self).cs.zero_constraints@ == old(self).cs.zero_constraints@,
            final(self).cs.eq_constraints@ == old(self).cs.eq_constraints@,
            final(self).cs.lk_expressions@ == old(self).cs.lk_expressions@,
            final(self).cs.lk_tables@ == old(self).cs.lk_tables@,
    {
        let id = self.cs.witin_names.len();
        let qn = qualified_name(&self.cs.ns, name);
        self.cs.witin_names.push(qn);
        proof {
            assert(names_view(self.cs.witin_names@) =~= names_view(old(self).cs.witin_names@).push(
                qualified(old(self).cs.ns@, name@),
            ));
        }
        WitIn { id }
    }

    /// Registers a fresh fixed column and hands back its handle.
    pub fn create_fixed(&mut self, name: &str) -> (w: Fixed)
        ensures
            w.id == old(self).cs.fixed_names@.len(),
            final(self).cs.fixed_names@.len() == old(self).cs.fixed_names@.len() + 1,
            names_view(final(self).cs.fixed_names@) == names_view(old(self).cs.fixed_names@).push(
                qualified(old(self).cs.ns@, name@),
            ),
            final(self).cs.nodes@ == old(self).cs.nodes@,
            final(self).cs.witin_names@ == old(self).cs.witin_names@,
            final(self).cs.ns@ == old(self).cs.ns@,
            final(self).cs.zero_constraints@ == old(self).cs.zero_constraints@,
            final(self).cs.eq_constraints@ == old(self).cs.eq_constraints@,
            final(self).cs.lk_expressions@ == old(self).cs.lk_expressions@,
            final(self).cs.lk_tables@ == old(self).cs.lk_tables@,
    {
        let id = self.cs.fixed_names.len();
        let qn = qualified_name(&self.cs.ns, name);
        self.cs.fixed_names.push(qn);
        proof {
            assert(names_view(self.cs.fixed_names@) =~= names_view(old(self).cs.fixed_names@).push(
                qualified(old(self).cs.ns@, name@),
            ));
        }
        Fixed { id }
    }
}

/// Everything except the expression arena is unchanged.
pub open spec fn only_nodes_changed(post: ConstraintSystem, pre: ConstraintSystem) -> bool {
    &&& post.witin_names@ == pre.witin_names@
    &&& post.fixed_names@ == pre.fixed_names@
    &&& post.ns@ == pre.ns@
    &&& post.zero_constraints@ == pre.zero_constraints@
    &&& post.eq_constraints@ == pre.eq_constraints@
    &&& post.lk_expressions@ == pre.lk_expressions@
    &&& post.lk_tables@ == pre.lk_tables@
}

impl CircuitBuilder {
    /// Appends a constant node.
    pub fn expr_constant(&mut self, c: Fp) -> (e: usize)
        ensures
            e == old(self).cs.nodes@.len(),
            final(self).cs.nodes@ == old(self).cs.nodes@.push(ExprNode::Constant(c)),
            only_nodes_changed(final(self).cs, old(self).cs),
    {
        let e = self.cs.nodes.len();
        self.cs.nodes.push(ExprNode::Constant(c));
        e
    }

    /// Appends a constant node holding the residue of `x`.
    pub fn expr_const_u64(&mut self, x: u64) -> (e: usize)
        ensures
            e == old(self).cs.nodes@.len(),
            final(self).cs.nodes@.len() == old(self).cs.nodes@.len() + 1,
            forall|j: int| 0 <= j < old(self).cs.nodes@.len()
                ==> final(self).cs.nodes@[j] == old(self).cs.nodes@[j],
            final(self).cs.nodes@.last() matches ExprNode::Constant(c) && c@ == (x as nat) % (
            FIELD_MODULUS as nat),
            only_nodes_changed(final(self).cs, old(self).cs),
    {
        self.expr_constant(Fp::from_u64(x))
    }

    /// Appends a reference to a witness column.
    pub fn expr_wit(&mut self, w: WitIn) -> (e: usize)
        ensures
            e == old(self).cs.nodes@.len(),
            final(self).cs.nodes@ == old(self).cs.nodes@.push(ExprNode::Wit(w.id)),
            only_nodes_changed(final(self).cs, old(self).cs),
    {
        let e = self.cs.nodes.len();
        self.cs.nodes.push(ExprNode::Wit(w.id));
        e
    }

    /// Appends a reference to a fixed column.
    pub fn expr_fixed(&mut self, f: Fixed) -> (e: usize)
        ensures
            e == old(self).cs.nodes@.len(),
            final(self).cs.nodes@ == old(self).cs.nodes@.push(ExprNode::Fix(f.id)),
            only_nodes_changed(final(self).cs, old(self).cs),
    {
        let e = self.cs.nodes.len();
        self.cs.nodes.push(ExprNode::Fix(f.id));
        e
    }

    /// Appends a challenge reference standing for `scalar·c^power + offset`.
    pub fn expr_challenge(&mut self, id: usize, power: usize, scalar: Ext, offset: Ext) -> (e:
        usize)
        ensures
            e == old(self).cs.nodes@.len(),
            final(self).cs.nodes@ == old(self).cs.nodes@.push(
                ExprNode::Challenge { id, power, scalar, offset },
            ),
            only_nodes_changed(final(self).cs, old(self).cs),
    {
        let e = self.cs.nodes.len();
        self.cs.nodes.push(ExprNode::Challenge { id, power, scalar, offset });
        e
    }

    /// Appends a sum node over two existing nodes.
    pub fn expr_sum(&mut self, a: usize, b: usize) -> (e: usize)
        ensures
            e == old(self).cs.nodes@.len(),
            final(self).cs.nodes@ == old(self).cs.nodes@.push(ExprNode::Sum(a, b)),
            only_nodes_changed(final(self).cs, old(self).cs),
            a < e && b < e ==> forall|w: Seq<nat>, f: Seq<nat>, ch: Seq<(nat, nat)>|
                #[trigger] eval_node(final(self).cs.nodes@, e as int, w, f, ch) == e_add(
                    eval_node(old(self).cs.nodes@, a as int, w, f, ch),
                    eval_node(old(self).cs.nodes@, b as int, w, f, ch),
                ),
    {
        let e = self.cs.nodes.len();
        self.cs.nodes.push(ExprNode::Sum(a, b));
        proof {
            crate::expr::lemma_eval_extend(old(self).cs.nodes@, self.cs.nodes@);
            if a < e && b < e {
                assert forall|w: Seq<nat>, f: Seq<nat>, ch: Seq<(nat, nat)>|
                    #[trigger] eval_node(self.cs.nodes@, e as int, w, f, ch) == e_add(
                    eval_node(old(self).cs.nodes@, a as int, w, f, ch),
                    eval_node(old(self).cs.nodes@, b as int, w, f, ch),
                ) by {
                    assert(eval_node(self.cs.nodes@, e as int, w, f, ch) == e_add(
                        eval_node(self.cs.nodes@, a as int, w, f, ch),
                        eval_node(self.cs.nodes@, b as int, w, f, ch),
                    ));
                }
            }
        }
        e
    }

    /// Appends a product node over two existing nodes.
    pub fn expr_product(&mut self, a: usize, b: usize) -> (e: usize)
        ensures
            e == old(self).cs.nodes@.len(),
            final(self).cs.nodes@ == old(self).cs.nodes@.push(ExprNode::Product(a, b)),
            only_nodes_changed(final(self).cs, old(self).cs),
            a < e && b < e ==> forall|w: Seq<nat>, f: Seq<nat>, ch: Seq<(nat, nat)>|
                #[trigger] eval_node(final(self).cs.nodes@, e as int, w, f, ch) == e_mul(
                    eval_node(old(self).cs.nodes@, a as int, w, f, ch),
                    eval_node(old(self).cs.nodes@, b as int, w, f, ch),
                ),
    {
        let e = self.cs.nodes.len();
        self.cs.nodes.push(ExprNode::Product(a, b));
        proof {
            crate::expr::lemma_eval_extend(old(self).cs.nodes@, self.cs.nodes@);
            if a < e && b < e {
                assert forall|w: Seq<nat>, f: Seq<nat>, ch: Seq<(nat, nat)>|
                    #[trigger] eval_node(self.cs.nodes@, e as int, w, f, ch) == e_mul(
                    eval_node(old(self).cs.nodes@, a as int, w, f, ch),
                    eval_node(old(self).cs.nodes@, b as int, w, f, ch),
                ) by {
                    assert(eval_node(self.cs.nodes@, e as int, w, f, ch) == e_mul(
                        eval_node(self.cs.nodes@, a as int, w, f, ch),
                        eval_node(self.cs.nodes@, b as int, w, f, ch),
                    ));
                }
            }
        }
        e
    }

    /// Appends a scaled-sum node standing for `x·a + b`.
    pub fn expr_scaled_sum(&mut self, x: usize, a: usize, b: usize) -> (e: usize)
        ensures
            e == old(self).cs.nodes@.len(),
            final(self).cs.nodes@ == old(self).cs.nodes@.push(ExprNode::ScaledSum(x, a, b)),
            only_nodes_changed(final(self).cs, old(self).cs),
            x < e && a < e && b < e ==> forall|w: Seq<nat>, f: Seq<nat>, ch: Seq<(nat, nat)>|
                #[trigger] eval_node(final(self).cs.nodes@, e as int, w, f, ch) == e_add(
                    e_mul(
                        eval_node(old(self).cs.nodes@, x as int, w, f, ch),
                        eval_node(old(self).cs.nodes@, a as int, w, f, ch),
                    ),
                    eval_node(old(self).cs.nodes@, b as int, w, f, ch),
                ),
    {
        let e = self.cs.nodes.len();
        self.cs.nodes.push(ExprNode::ScaledSum(x, a, b));
        proof {
            crate::expr::lemma_eval_extend(old(self).cs.nodes@, self.cs.nodes@);
            if x < e && a < e && b < e {
                assert forall|w: Seq<nat>, f: Seq<nat>, ch: Seq<(nat, nat)>|
                    #[trigger] eval_node(self.cs.nodes@, e as int, w, f, ch) == e_add(
                    e_mul(
                        eval_node(old(self).cs.nodes@, x as int, w, f, ch),
                        eval_node(old(self).cs.nodes@, a as int, w, f, ch),
                    ),
                    eval_node(old(self).cs.nodes@, b as int, w, f, ch),
                ) by {
                    assert(eval_node(self.cs.nodes@, e as int, w, f, ch) == e_add(
                        e_mul(
                            eval_node(self.cs.nodes@, x as int, w, f, ch),
                            eval_node(self.cs.nodes@, a as int, w, f, ch),
                        ),
                        eval_node(self.cs.nodes@, b as int, w, f, ch),
                    ));
                }
            }
        }
        e
    }

    /// Appends nodes standing for the difference `a - b`.
    pub fn expr_sub(&mut self, a: usize, b: usize) -> (e: usize)
        requires
            a < self.cs.nodes@.len(),
            b < self.cs.nodes@.len(),
        ensures
            e == old(self).cs.nodes@.len() + 3,
            final(self).cs.nodes@.len() == old(self).cs.nodes@.len() + 4,
            forall|j: int| 0 <= j < old(self).cs.nodes@.len()
                ==> final(self).cs.nodes@[j] == old(self).cs.nodes@[j],
            only_nodes_changed(final(self).cs, old(self).cs),
            forall|w: Seq<nat>, f: Seq<nat>, ch: Seq<(nat, nat)>|
                #[trigger] eval_node(final(self).cs.nodes@, e as int, w, f, ch) == e_sub(
                    eval_node(old(self).cs.nodes@, a as int, w, f, ch),
                    eval_node(old(self).cs.nodes@, b as int, w, f, ch),
                ),
    {
        let neg = self.expr_neg(b);
        let ghost mid = self.cs;
        let e = self.expr_sum(a, neg);
        proof {
            crate::expr::lemma_eval_extend(old(self).cs.nodes@, mid.nodes@);
            crate::expr::lemma_eval_extend(mid.nodes@, self.cs.nodes@);
            assert forall|w: Seq<nat>, f: Seq<nat>, ch: Seq<(nat, nat)>|
                #[trigger] eval_node(self.cs.nodes@, e as int, w, f, ch) == e_sub(
                eval_node(old(self).cs.nodes@, a as int, w, f, ch),
                eval_node(old(self).cs.nodes@, b as int, w, f, ch),
            ) by {
                let av = eval_node(old(self).cs.nodes@, a as int, w, f, ch);
                let bv = eval_node(old(self).cs.nodes@, b as int, w, f, ch);
                assert(eval_node(mid.nodes@, a as int, w, f, ch) == av);
                assert(eval_node(mid.nodes@, neg as int, w, f, ch) == e_sub((0, 0), bv));
                crate::field::lemma_e_add_neg(av, bv);
            }
        }
        e
    }

    /// Appends nodes standing for the negation `0 - a`.
    pub fn expr_neg(&mut self, a: usize) -> (e: usize)
        requires
            a < self.cs.nodes@.len(),
        ensures
            e == old(self).cs.nodes@.len() + 2,
            final(self).cs.nodes@.len() == old(self).cs.nodes@.len() + 3,
            forall|j: int| 0 <= j < old(self).cs.nodes@.len()
                ==> final(self).cs.nodes@[j] == old(self).cs.nodes@[j],
            only_nodes_changed(final(self).cs, old(self).cs),
            forall|w: Seq<nat>, f: Seq<nat>, ch: Seq<(nat, nat)>|
                #[trigger] eval_node(final(self).cs.nodes@, e as int, w, f, ch) == e_sub(
                    (0nat, 0nat),
                    eval_node(old(self).cs.nodes@, a as int, w, f, ch),
                ),
    {
        let m1 = self.expr_constant(Fp::from_u64(FIELD_MODULUS - 1));
        let ghost s1 = self.cs;
        let z = self.expr_constant(Fp::zero());
        let ghost s2 = self.cs;
        let e = self.expr_scaled_sum(a, m1, z);
        proof {
            crate::expr::lemma_eval_extend(old(self).cs.nodes@, s1.nodes@);
            crate::expr::lemma_eval_extend(s1.nodes@, s2.nodes@);
            crate::expr::lemma_eval_extend(s2.nodes@, self.cs.nodes@);
            assert forall|w: Seq<nat>, f: Seq<nat>, ch: Seq<(nat, nat)>|
                #[trigger] eval_node(self.cs.nodes@, e as int, w, f, ch) == e_sub(
                (0nat, 0nat),
                eval_node(old(self).cs.nodes@, a as int, w, f, ch),
            ) by {
                let av = eval_node(old(self).cs.nodes@, a as int, w, f, ch);
                assert(eval_node(s2.nodes@, a as int, w, f, ch) == av);
                assert(eval_node(s2.nodes@, m1 as int, w, f, ch) == (
                    ((FIELD_MODULUS - 1) as nat) % (FIELD_MODULUS as nat),
                    0nat,
                ));
                assert(eval_node(s2.nodes@, z as int, w, f, ch) == (0nat, 0nat));
                crate::field::lemma_e_mul_neg_one(av);
            }
        }
        e
    }
}

impl CircuitBuilder {
    /// Registers a named assert-zero constraint over an existing expression.
    pub fn require_zero(&mut self, name: &str, expr: usize) -> (r: Result<(), ZKVMError>)
        ensures
            r is Ok,
            final(self).cs.nodes@ == old(self).cs.nodes@,
            final(self).cs.witin_names@ == old(self).cs.witin_names@,
            final(self).cs.fixed_names@ == old(self).cs.fixed_names@,
            final(self).cs.ns@ == old(self).cs.ns@,
            final(self).cs.zero_constraints@.len() == old(self).cs.zero_constraints@.len() + 1,
            forall|j: int| 0 <= j < old(self).cs.zero_constraints@.len()
                ==> final(self).cs.zero_constraints@[j] == old(self).cs.zero_constraints@[j],
            final(self).cs.zero_constraints@.last().expr == expr,
            final(self).cs.zero_constraints@.last().name@ == qualified(old(self).cs.ns@, name@),
            final(self).cs.eq_constraints@ == old(self).cs.eq_constraints@,
            final(self).cs.lk_expressions@ == old(self).cs.lk_expressions@,
            final(self).cs.lk_tables@ == old(self).cs.lk_tables@,
    {
        let qn = qualified_name(&self.cs.ns, name);
        self.cs.zero_constraints.push(Constraint { name: qn, expr });
        Ok(())
    }

    /// Registers a named assert-equal constraint between two existing
    /// expressions.
    pub fn require_equal(&mut self, name: &str, lhs: usize, rhs: usize) -> (r: Result<
        (),
        ZKVMError,
    >)
        ensures
            r is Ok,
            final(self).cs.nodes@ == old(self).cs.nodes@,
            final(self).cs.witin_names@ == old(self).cs.witin_names@,
            final(self).cs.fixed_names@ == old(self).cs.fixed_names@,
            final(self).cs.ns@ == old(self).cs.ns@,
            final(self).cs.zero_constraints@ == old(self).cs.zero_constraints@,
            final(self).cs.eq_constraints@.len() == old(self).cs.eq_constraints@.len() + 1,
            forall|j: int| 0 <= j < old(self).cs.eq_constraints@.len()
                ==> final(self).cs.eq_constraints@[j] == old(self).cs.eq_constraints@[j],
            final(self).cs.eq_constraints@.last().lhs == lhs,
            final(self).cs.eq_constraints@.last().rhs == rhs,
            final(self).cs.eq_constraints@.last().name@ == qualified(old(self).cs.ns@, name@),
            final(self).cs.lk_expressions@ == old(self).cs.lk_expressions@,
            final(self).cs.lk_tables@ == old(self).cs.lk_tables@,
    {
        let qn = qualified_name(&self.cs.ns, name);
        self.cs.eq_constraints.push(EqConstraint { name: qn, lhs, rhs });
        Ok(())
    }

    /// Registers the boolean constraint `expr·(expr − 1) = 0` under a fresh
    /// `assert_bit` namespace.
    pub fn assert_bit(&mut self, name: &str, expr: usize) -> (r: Result<(), ZKVMError>)
        requires
            expr < old(self).cs.nodes@.len(),
        ensures
            r is Ok,
            cs_extends(final(self).cs, old(self).cs),
            final(self).cs.witin_names@ == old(self).cs.witin_names@,
            final(self).cs.fixed_names@ == old(self).cs.fixed_names@,
            final(self).cs.eq_constraints@ == old(self).cs.eq_constraints@,
            final(self).cs.lk_expressions@ == old(self).cs.lk_expressions@,
            final(self).cs.lk_tables@ == old(self).cs.lk_tables@,
            final(self).cs.zero_constraints@.len() == old(self).cs.zero_constraints@.len() + 1,
            final(self).cs.zero_constraints@.last().expr < final(self).cs.nodes@.len(),
            final(self).cs.zero_constraints@.last().name@ == path_prefix(
                names_view(old(self).cs.ns@).push("assert_bit"@),
            ) + name@,
            forall|w: Seq<nat>, f: Seq<nat>, ch: Seq<(nat, nat)>|
                #[trigger] eval_node(
                    final(self).cs.nodes@,
                    final(self).cs.zero_constraints@.last().expr as int,
                    w,
                    f,
                    ch,
                ) == e_mul(
                    eval_node(old(self).cs.nodes@, expr as int, w, f, ch),
                    e_sub(eval_node(old(self).cs.nodes@, expr as int, w, f, ch), (1nat, 0nat)),
                ),
    {
        self.push_namespace("assert_bit");
        let ghost s0 = old(self).cs;
        let one = self.expr_constant(Fp::one());
        let ghost s1 = self.cs;
        let minus = self.expr_sub(expr, one);
        let ghost s2 = self.cs;
        let prod = self.expr_product(expr, minus);
        let r = self.require_zero(name, prod);
        self.pop_namespace();
        proof {
            crate::expr::lemma_eval_extend(s0.nodes@, s1.nodes@);
            crate::expr::lemma_eval_extend(s1.nodes@, s2.nodes@);
            crate::expr::lemma_eval_extend(s2.nodes@, self.cs.nodes@);
            assert forall|w: Seq<nat>, f: Seq<nat>, ch: Seq<(nat, nat)>|
                #[trigger] eval_node(
                self.cs.nodes@,
                self.cs.zero_constraints@.last().expr as int,
                w,
                f,
                ch,
            ) == e_mul(
                eval_node(s0.nodes@, expr as int, w, f, ch),
                e_sub(eval_node(s0.nodes@, expr as int, w, f, ch), (1nat, 0nat)),
            ) by {
                let xv = eval_node(s0.nodes@, expr as int, w, f, ch);
                assert(eval_node(s1.nodes@, expr as int, w, f, ch) == xv);
                assert(eval_node(s1.nodes@, one as int, w, f, ch) == (1nat, 0nat));
                assert(eval_node(s2.nodes@, minus as int, w, f, ch) == e_sub(xv, (1nat, 0nat)));
                assert(eval_node(s2.nodes@, expr as int, w, f, ch) == xv);
            }
            assert(old(self).cs.ns@ =~= self.cs.ns@);
        }
        r
    }

    /// Registers a lookup of `expr` against the `W`-bit range table, under a
    /// fresh namespace. The registered expression is the random-linear-
    /// combination encoding of the record `(tag, expr)`.
    pub fn assert_ux<const W: u64>(&mut self, name: &str, expr: usize) -> (r: Result<
        (),
        ZKVMError,
    >)
        requires
            W == 5 || W == 16,
            expr < old(self).cs.nodes@.len(),
        ensures
            r is Ok,
            cs_extends(final(self).cs, old(self).cs),
            final(self).cs.witin_names@ == old(self).cs.witin_names@,
            final(self).cs.fixed_names@ == old(self).cs.fixed_names@,
            final(self).cs.eq_constraints@ == old(self).cs.eq_constraints@,
            final(self).cs.zero_constraints@ == old(self).cs.zero_constraints@,
            final(self).cs.lk_tables@ == old(self).cs.lk_tables@,
            final(self).cs.lk_expressions@.len() == old(self).cs.lk_expressions@.len() + 1,
            final(self).cs.lk_expressions@.last().expr < final(self).cs.nodes@.len(),
            final(self).cs.lk_expressions@.last().name@ == path_prefix(
                names_view(old(self).cs.ns@).push(
                    if W == 16 {
                        "assert_u16"@
                    } else {
                        "assert_u5"@
                    },
                ),
            ) + name@,
            forall|w: Seq<nat>, f: Seq<nat>, ch: Seq<(nat, nat)>|
                ch.len() >= 2 ==> #[trigger] eval_node(
                    final(self).cs.nodes@,
                    final(self).cs.lk_expressions@.last().expr as int,
                    w,
                    f,
                    ch,
                ) == lk_rlc(
                    if W == 16 {
                        rom_tag(ROMType::U16)
                    } else {
                        rom_tag(ROMType::U5)
                    },
                    eval_node(old(self).cs.nodes@, expr as int, w, f, ch),
                    ch[0],
                    ch[1],
                ),
    {
        let rom = if W == 16 {
            ROMType::U16
        } else {
            ROMType::U5
        };
        if W == 16 {
            self.push_namespace("assert_u16");
        } else {
            self.push_namespace("assert_u5");
        }
        let rec = self.rlc_record_pair(rom, expr);
        let qn = qualified_name(&self.cs.ns, name);
        self.cs.lk_expressions.push(Lookup { name: qn, expr: rec });
        self.pop_namespace();
        proof {
            assert(old(self).cs.ns@ =~= self.cs.ns@);
        }
        Ok(())
    }

    /// Appends the random-linear-combination encoding of the lookup record
    /// `(tag, expr)`: an expression that evaluates to `α + tag·β^0 + expr·β^1`
    /// under the two transcript challenges.
    pub fn rlc_record_pair(&mut self, rom: ROMType, expr: usize) -> (rec: usize)
        requires
            expr < old(self).cs.nodes@.len(),
        ensures
            rec < final(self).cs.nodes@.len(),
            final(self).cs.nodes@.len() == old(self).cs.nodes@.len() + 6,
            forall|j: int| 0 <= j < old(self).cs.nodes@.len()
                ==> final(self).cs.nodes@[j] == old(self).cs.nodes@[j],
            only_nodes_changed(final(self).cs, old(self).cs),
            forall|w: Seq<nat>, f: Seq<nat>, ch: Seq<(nat, nat)>|
                ch.len() >= 2 ==> #[trigger] eval_node(final(self).cs.nodes@, rec as int, w, f, ch)
                    == lk_rlc(
                    rom_tag(rom),
                    eval_node(old(self).cs.nodes@, expr as int, w, f, ch),
                    ch[0],
                    ch[1],
                ),
    {
        let ghost s0 = self.cs;
        let alpha = self.expr_challenge(0, 1, Ext::one(), Ext::zero());
        let beta0 = self.expr_challenge(1, 0, Ext::one(), Ext::zero());
        let beta1 = self.expr_challenge(1, 1, Ext::one(), Ext::zero());
        let tag = self.expr_constant(Fp::from_u64(rom_tag_u64(rom)));
        let ghost s4 = self.cs;
        let acc = self.expr_scaled_sum(tag, beta0, alpha);
        let ghost s5 = self.cs;
        let rec = self.expr_scaled_sum(expr, beta1, acc);
        proof {
            crate::expr::lemma_eval_extend(s0.nodes@, s4.nodes@);
            crate::expr::lemma_eval_extend(s4.nodes@, s5.nodes@);
            crate::expr::lemma_eval_extend(s5.nodes@, self.cs.nodes@);
            let tagv = rom_tag(rom);
            assert forall|w: Seq<nat>, f: Seq<nat>, ch: Seq<(nat, nat)>| ch.len() >= 2
                implies #[trigger] eval_node(self.cs.nodes@, rec as int, w, f, ch) == lk_rlc(
                tagv,
                eval_node(s0.nodes@, expr as int, w, f, ch),
                ch[0],
                ch[1],
            ) by {
                let xv = eval_node(s0.nodes@, expr as int, w, f, ch);
                assert(eval_node(s4.nodes@, alpha as int, w, f, ch) == chal_eval(ch[0], 1));
                assert(eval_node(s4.nodes@, beta0 as int, w, f, ch) == chal_eval(ch[1], 0));
                assert(eval_node(s4.nodes@, tag as int, w, f, ch) == (
                    tagv % (FIELD_MODULUS as nat),
                    0nat,
                ));
                assert(eval_node(s5.nodes@, acc as int, w, f, ch) == e_add(
                    e_mul((tagv % (FIELD_MODULUS as nat), 0nat), chal_eval(ch[1], 0)),
                    chal_eval(ch[0], 1),
                ));
                assert(eval_node(s5.nodes@, beta1 as int, w, f, ch) == chal_eval(ch[1], 1));
                assert(eval_node(s5.nodes@, expr as int, w, f, ch) == xv);
            }
        }
        rec
    }

    /// Registers `target = cond ? true_expr : false_expr` as the assert-zero
    /// constraint `cond·(true_expr − false_expr) + false_expr − target = 0`.
    pub fn condition_require_equal(
        &mut self,
        name: &str,
        cond: usize,
        target: usize,
        true_expr: usize,
        false_expr: usize,
    ) -> (r: Result<(), ZKVMError>)
        requires
            cond < old(self).cs.nodes@.len(),
            target < old(self).cs.nodes@.len(),
            true_expr < old(self).cs.nodes@.len(),
            false_expr < old(self).cs.nodes@.len(),
        ensures
            r is Ok,
            cs_extends(final(self).cs, old(self).cs),
            final(self).cs.witin_names@ == old(self).cs.witin_names@,
            final(self).cs.fixed_names@ == old(self).cs.fixed_names@,
            final(self).cs.eq_constraints@ == old(self).cs.eq_constraints@,
            final(self).cs.lk_expressions@ == old(self).cs.lk_expressions@,
            final(self).cs.lk_tables@ == old(self).cs.lk_tables@,
            final(self).cs.zero_constraints@.len() == old(self).cs.zero_constraints@.len() + 1,
            final(self).cs.zero_constraints@.last().expr < final(self).cs.nodes@.len(),
            final(self).cs.zero_constraints@.last().name@ == path_prefix(
                names_view(old(self).cs.ns@).push("condition_require_equal"@),
            ) + name@,
            forall|w: Seq<nat>, f: Seq<nat>, ch: Seq<(nat, nat)>|
                #[trigger] eval_node(
                    final(self).cs.nodes@,
                    final(self).cs.zero_constraints@.last().expr as int,
                    w,
                    f,
                    ch,
                ) == e_sub(
                    e_add(
                        e_mul(
                            eval_node(old(self).cs.nodes@, cond as int, w, f, ch),
                            e_sub(
                                eval_node(old(self).cs.nodes@, true_expr as int, w, f, ch),
                                eval_node(old(self).cs.nodes@, false_expr as int, w, f, ch),
                            ),
                        ),
                        eval_node(old(self).cs.nodes@, false_expr as int, w, f, ch),
                    ),
                    eval_node(old(self).cs.nodes@, target as int, w, f, ch),
                ),
    {
        self.push_namespace("condition_require_equal");
        let ghost s0 = old(self).cs;
        let branch_diff = self.expr_sub(true_expr, false_expr);
        let ghost s1 = self.cs;
        let picked = self.expr_product(cond, branch_diff);
        let ghost s2 = self.cs;
        let total = self.expr_sum(picked, false_expr);
        let ghost s3 = self.cs;
        let zeroed = self.expr_sub(total, target);
        let r = self.require_zero(name, zeroed);
        self.pop_namespace();
        proof {
            crate::expr::lemma_eval_extend(s0.nodes@, s1.nodes@);
            crate::expr::lemma_eval_extend(s1.nodes@, s2.nodes@);
            crate::expr::lemma_eval_extend(s2.nodes@, s3.nodes@);
            crate::expr::lemma_eval_extend(s3.nodes@, self.cs.nodes@);
            assert forall|w: Seq<nat>, f: Seq<nat>, ch: Seq<(nat, nat)>|
                #[trigger] eval_node(self.cs.nodes@, zeroed as int, w, f, ch) == e_sub(
                e_add(
                    e_mul(
                        eval_node(s0.nodes@, cond as int, w, f, ch),
                        e_sub(
                            eval_node(s0.nodes@, true_expr as int, w, f, ch),
                            eval_node(s0.nodes@, false_expr as int, w, f, ch),
                        ),
                    ),
                    eval_node(s0.nodes@, false_expr as int, w, f, ch),
                ),
                eval_node(s0.nodes@, target as int, w, f, ch),
            ) by {
                let cv = eval_node(s0.nodes@, cond as int, w, f, ch);
                let tv = eval_node(s0.nodes@, true_expr as int, w, f, ch);
                let fv = eval_node(s0.nodes@, false_expr as int, w, f, ch);
                let gv = eval_node(s0.nodes@, target as int, w, f, ch);
                assert(eval_node(s1.nodes@, branch_diff as int, w, f, ch) == e_sub(tv, fv));
                assert(eval_node(s1.nodes@, cond as int, w, f, ch) == cv);
                assert(eval_node(s2.nodes@, picked as int, w, f, ch) == e_mul(cv, e_sub(tv, fv)));
                assert(eval_node(s2.nodes@, false_expr as int, w, f, ch) == fv);
                assert(eval_node(s3.nodes@, total as int, w, f, ch) == e_add(
                    e_mul(cv, e_sub(tv, fv)),
                    fv,
                ));
                assert(eval_node(s3.nodes@, target as int, w, f, ch) == gv);
            }
            assert(old(self).cs.ns@ =~= self.cs.ns@);
        }
        r
    }

    /// Registers the table side of a lookup argument: a named record
    /// expression enumerated over `len` rows with a multiplicity column.
    pub fn lk_table_record(
        &mut self,
        name: &str,
        len: usize,
        record: usize,
        multiplicity: usize,
    ) -> (r: Result<(), ZKVMError>)
        ensures
            r is Ok,
            final(self).cs.nodes@ == old(self).cs.nodes@,
            final(self).cs.witin_names@ == old(self).cs.witin_names@,
            final(self).cs.fixed_names@ == old(self).cs.fixed_names@,
            final(self).cs.ns@ == old(self).cs.ns@,
            final(self).cs.zero_constraints@ == old(self).cs.zero_constraints@,
            final(self).cs.eq_constraints@ == old(self).cs.eq_constraints@,
            final(self).cs.lk_expressions@ == old(self).cs.lk_expressions@,
            final(self).cs.lk_tables@.len() == old(self).cs.lk_tables@.len() + 1,
            forall|j: int| 0 <= j < old(self).cs.lk_tables@.len()
                ==> final(self).cs.lk_tables@[j] == old(self).cs.lk_tables@[j],
            final(self).cs.lk_tables@.last().len == len,
            final(self).cs.lk_tables@.last().record == record,
            final(self).cs.lk_tables@.last().multiplicity == multiplicity,
            final(self).cs.lk_tables@.last().name@ == qualified(old(self).cs.ns@, name@),
    {
        let qn = qualified_name(&self.cs.ns, name);
        self.cs.lk_tables.push(LookupTable { name: qn, len, record, multiplicity });
        Ok(())
    }
}

} // verus!
