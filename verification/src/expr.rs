//! Symbolic expressions over the field, kept in an arena of nodes indexed by
//! integer handles. A node refers to its children by smaller indices, so the
//! arena is acyclic by construction and evaluation terminates.

use vstd::prelude::*;

use crate::field::{e_add, e_from_base, e_mul, e_pow, Ext, Fp};

verus! {

/// A handle to one witness column.
#[derive(Clone, Copy, Debug, PartialEq, Eq, Structural)]
pub struct WitIn {
    pub id: usize,
}

/// A handle to one fixed column.
#[derive(Clone, Copy, Debug, PartialEq, Eq, Structural)]
pub struct Fixed {
    pub id: usize,
}

/// One node of the expression arena. `Sum`, `Product` and `ScaledSum` hold
/// arena indices of their children; `ScaledSum(x, a, b)` stands for
/// `x·a + b`. A `Challenge` stands for `scalar·c^power + offset`, where `c`
/// is the transcript challenge with the given id.
#[derive(Clone, Copy, Debug, PartialEq, Eq, Structural)]
pub enum ExprNode {
    Constant(Fp),
    Wit(usize),
    Fix(usize),
    Challenge { id: usize, power: usize, scalar: Ext, offset: Ext },
    Sum(usize, usize),
    Product(usize, usize),
    ScaledSum(usize, usize, usize),
}

/// The residues of a sequence of base-field elements.
pub open spec fn fp_views(s: Seq<Fp>) -> Seq<nat> {
    s.map_values(|p: Fp| p@)
}

/// The residue pairs of a sequence of extension-field elements.
pub open spec fn ext_views(s: Seq<Ext>) -> Seq<(nat, nat)> {
    s.map_values(|p: Ext| p@)
}

/// The value of node `i` of the arena on one row: `w` and `f` give the
/// row's witness and fixed column residues, `ch` the challenges. Out-of-range
/// references and children that do not precede their parent count as zero;
/// the builder never creates such nodes.
pub open spec fn eval_node(
    nodes: Seq<ExprNode>,
    i: int,
    w: Seq<nat>,
    f: Seq<nat>,
    ch: Seq<(nat, nat)>,
) -> (nat, nat)
    decreases i,
{
    if 0 <= i < nodes.len() {
        match nodes[i] {
            ExprNode::Constant(c) => e_from_base(c@),
            ExprNode::Wit(x) => if x < w.len() {
                e_from_base(w[x as int])
            } else {
                (0, 0)
            },
            ExprNode::Fix(x) => if x < f.len() {
                e_from_base(f[x as int])
            } else {
                (0, 0)
            },
            ExprNode::Challenge { id, power, scalar, offset } => if id < ch.len() {
                e_add(e_mul(scalar@, e_pow(ch[id as int], power as nat)), offset@)
            } else {
                (0, 0)
            },
            ExprNode::Sum(a, b) => if a < i && b < i {
                e_add(eval_node(nodes, a as int, w, f, ch), eval_node(nodes, b as int, w, f, ch))
            } else {
                (0, 0)
            },
            ExprNode::Product(a, b) => if a < i && b < i {
                e_mul(eval_node(nodes, a as int, w, f, ch), eval_node(nodes, b as int, w, f, ch))
            } else {
                (0, 0)
            },
            ExprNode::ScaledSum(x, a, b) => if x < i && a < i && b < i {
                e_add(
                    e_mul(eval_node(nodes, x as int, w, f, ch), eval_node(nodes, a as int, w, f, ch)),
                    eval_node(nodes, b as int, w, f, ch),
                )
            } else {
                (0, 0)
            },
        }
    } else {
        (0, 0)
    }
}

/// Appending nodes to the arena does not change the value of any existing
/// node: a node only ever refers to nodes before it.
pub proof fn lemma_eval_extend(n1: Seq<ExprNode>, n2: Seq<ExprNode>)
    requires
        n1.len() <= n2.len(),
        forall|j: int| 0 <= j < n1.len() ==> n1[j] == n2[j],
    ensures
        forall|i: int, w: Seq<nat>, f: Seq<nat>, ch: Seq<(nat, nat)>|
            0 <= i < n1.len() ==> #[trigger] eval_node(n2, i, w, f, ch) == eval_node(n1, i, w, f, ch),
{
    assert forall|i: int, w: Seq<nat>, f: Seq<nat>, ch: Seq<(nat, nat)>|
        0 <= i < n1.len() implies #[trigger] eval_node(n2, i, w, f, ch) == eval_node(
        n1,
        i,
        w,
        f,
        ch,
    ) by {
        lemma_eval_extend_one(n1, n2, i, w, f, ch);
    }
}

/// The targeted form of `lemma_eval_extend`, for one node and one valuation.
pub proof fn lemma_eval_extend_one(
    n1: Seq<ExprNode>,
    n2: Seq<ExprNode>,
    i: int,
    w: Seq<nat>,
    f: Seq<nat>,
    ch: Seq<(nat, nat)>,
)
    requires
        n1.len() <= n2.len(),
        forall|j: int| 0 <= j < n1.len() ==> n1[j] == n2[j],
        0 <= i < n1.len(),
    ensures
        eval_node(n2, i, w, f, ch) == eval_node(n1, i, w, f, ch),
    decreases i,
{
    match n1[i] {
        ExprNode::Sum(a, b) => {
            if a < i && b < i {
                lemma_eval_extend_one(n1, n2, a as int, w, f, ch);
                lemma_eval_extend_one(n1, n2, b as int, w, f, ch);
            }
        },
        ExprNode::Product(a, b) => {
            if a < i && b < i {
                lemma_eval_extend_one(n1, n2, a as int, w, f, ch);
                lemma_eval_extend_one(n1, n2, b as int, w, f, ch);
            }
        },
        ExprNode::ScaledSum(x, a, b) => {
            if x < i && a < i && b < i {
                lemma_eval_extend_one(n1, n2, x as int, w, f, ch);
                lemma_eval_extend_one(n1, n2, a as int, w, f, ch);
                lemma_eval_extend_one(n1, n2, b as int, w, f, ch);
            }
        },
        _ => {},
    }
}

/// Evaluates node `i` on one row. Total: malformed references evaluate to
/// zero, exactly as in the specification.
pub fn eval_expr(
    nodes: &Vec<ExprNode>,
    i: usize,
    w: &Vec<Fp>,
    f: &Vec<Fp>,
    ch: &Vec<Ext>,
) -> (r: Ext)
    ensures
        r@ == eval_node(nodes@, i as int, fp_views(w@), fp_views(f@), ext_views(ch@)),
    decreases i,
{
    if i >= nodes.len() {
        return Ext::zero();
    }
    let node = nodes[i];
    match node {
        ExprNode::Constant(c) => Ext::from_base(c),
        ExprNode::Wit(x) => {
            if x < w.len() {
                Ext::from_base(w[x])
            } else {
                Ext::zero()
            }
        },
        ExprNode::Fix(x) => {
            if x < f.len() {
                Ext::from_base(f[x])
            } else {
                Ext::zero()
            }
        },
        ExprNode::Challenge { id, power, scalar, offset } => {
            if id < ch.len() {
                scalar.mul(ch[id].pow(power)).add(offset)
            } else {
                Ext::zero()
            }
        },
        ExprNode::Sum(a, b) => {
            if a < i && b < i {
                eval_expr(nodes, a, w, f, ch).add(eval_expr(nodes, b, w, f, ch))
            } else {
                Ext::zero()
            }
        },
        ExprNode::Product(a, b) => {
            if a < i && b < i {
                eval_expr(nodes, a, w, f, ch).mul(eval_expr(nodes, b, w, f, ch))
            } else {
                Ext::zero()
            }
        },
        ExprNode::ScaledSum(x, a, b) => {
            if x < i && a < i && b < i {
                eval_expr(nodes, x, w, f, ch).mul(eval_expr(nodes, a, w, f, ch)).add(
                    eval_expr(nodes, b, w, f, ch),
                )
            } else {
                Ext::zero()
            }
        },
    }
}

} // verus!
