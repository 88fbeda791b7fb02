//! Visitors that normalize and transform expression trees before they are
//! compiled for interval evaluation.

use crate::ast::clone_expr;
use crate::ast::expr_eq;
use crate::ast::seq_size;
use crate::ast::lemma_seq_size_elem;
use crate::ast::BinaryOp;
use crate::ast::Expr;
use crate::ast::ExprKind;
use crate::ast::NaryOp;
use crate::ast::Rational;
use crate::ast::ExprId;
use crate::eval::FormIndex;
use crate::eval::RelOp;
use crate::eval::StaticForm;
use crate::eval::StaticFormKind;
use crate::eval::TermIndex;
use crate::eval::spec_forms_wf;
use crate::ast::UNINIT_EXPR_ID;
use crate::ast::ValueType;
use crate::ast::VarSet;
use crate::ast::UnaryOp;
use vstd::prelude::*;
use vstd::string::StrSliceExecFns;
use vstd::string::StringExecFns;
use vstd::multiset::Multiset;

verus! {

/// A visitor that visits the nodes of an expression tree.
pub trait Visit {
    /// Visits one expression.
    fn visit_expr(&mut self, e: &Expr);
}

/// A visitor that visits the nodes of an expression tree and possibly
/// modifies them.
pub trait VisitMut {
    /// Visits one expression, possibly replacing it.
    fn visit_expr_mut(&mut self, e: &mut Expr);
}

/// `e` is an n-ary node of the given operation.
pub open spec fn is_nary_of(e: Expr, op: NaryOp) -> bool {
    match e.kind {
        ExprKind::Nary(o, _) => o == op,
        _ => false,
    }
}

/// No node of the expression uses an operation that `PreTransform`
/// eliminates: negation, square roots, and the four binary arithmetic
/// operations, which all become `Pow`, `Plus` and `Times`.
pub open spec fn pre_normalized(e: Expr) -> bool
    decreases e,
{
    match e.kind {
        ExprKind::Constant(_) => true,
        ExprKind::Var(_) => true,
        ExprKind::Unary(op, x) => op != UnaryOp::Neg && op != UnaryOp::Sqrt && pre_normalized(*x),
        ExprKind::Binary(op, x, y) => op != BinaryOp::Add && op != BinaryOp::Sub && op
            != BinaryOp::Mul && op != BinaryOp::Div && pre_normalized(*x) && pre_normalized(*y),
        ExprKind::Nary(_, xs) => seq_pre_normalized(xs@),
        ExprKind::Pown(x, _) => pre_normalized(*x),
        ExprKind::Rootn(x, _) => pre_normalized(*x),
        ExprKind::List(xs) => seq_pre_normalized(xs@),
        ExprKind::Uninit => true,
    }
}

/// Every expression of the sequence is [`pre_normalized`].
pub open spec fn seq_pre_normalized(s: Seq<Expr>) -> bool
    decreases s,
{
    s.len() == 0 || (pre_normalized(s[0]) && seq_pre_normalized(s.skip(1)))
}

/// Appending a pre-normalized expression keeps a sequence pre-normalized.
proof fn lemma_seq_pre_normalized_push(s: Seq<Expr>, x: Expr)
    requires
        seq_pre_normalized(s),
        pre_normalized(x),
    ensures
        seq_pre_normalized(s.push(x)),
    decreases s.len(),
{
    if s.len() == 0 {
        assert(s.push(x).skip(1) =~= Seq::<Expr>::empty());
        assert(s.push(x)[0] == x);
        assert(seq_pre_normalized(s.push(x).skip(1)));
        assert(seq_pre_normalized(s.push(x)));
    } else {
        lemma_seq_pre_normalized_push(s.skip(1), x);
        assert(s.push(x).skip(1) =~= s.skip(1).push(x));
        assert(s.push(x)[0] == s[0]);
        assert(seq_pre_normalized(s.push(x)));
    }
}

/// Replaces arithmetic expressions with equivalent ones consisting of only
/// `Pow`, `Plus` and `Times`, plus a few ad-hoc simplifications such as
/// `sin(x)/x → sinc(x)` on its extended domain.
pub struct PreTransform;

impl VisitMut for PreTransform {
    fn visit_expr_mut(&mut self, e: &mut Expr) {
        let mut tmp = Expr::uninit();
        core::mem::swap(e, &mut tmp);
        *e = pre_transform_expr(tmp);
    }
}

/// Rewrites the expression bottom-up so that no negation, square root, or
/// binary arithmetic operation remains.
pub fn pre_transform_expr(e: Expr) -> (r: Expr)
    ensures
        pre_normalized(r),
    decreases e.size(), 0nat,
{
    let ghost e0 = e;
    match e.kind {
        ExprKind::Constant(x) => Expr::constant(x),
        ExprKind::Var(s) => Expr::var(s),
        ExprKind::Unary(op, x) => {
            proof {
                assert(e0.size() > (*x).size());
            }
            let xt = pre_transform_expr(*x);
            pre_apply_unary(op, xt)
        },
        ExprKind::Binary(op, x, y) => {
            proof {
                assert(e0.size() > (*x).size());
                assert(e0.size() > (*y).size());
            }
            let xt = pre_transform_expr(*x);
            let yt = pre_transform_expr(*y);
            pre_apply_binary(op, xt, yt)
        },
        ExprKind::Nary(op, xs) => {
            let ys = pre_transform_exprs(xs);
            Expr::nary(op, ys)
        },
        ExprKind::Pown(x, n) => {
            proof {
                assert(e0.size() > (*x).size());
            }
            let xt = pre_transform_expr(*x);
            Expr::pown(Box::new(xt), n)
        },
        ExprKind::Rootn(x, n) => {
            proof {
                assert(e0.size() > (*x).size());
            }
            let xt = pre_transform_expr(*x);
            Expr::rootn(Box::new(xt), n)
        },
        ExprKind::List(xs) => {
            let ys = pre_transform_exprs(xs);
            Expr::new_list(ys)
        },
        ExprKind::Uninit => Expr::uninit(),
    }
}

/// Rewrites every expression of the vector.
fn pre_transform_exprs(xs: Vec<Expr>) -> (r: Vec<Expr>)
    ensures
        seq_pre_normalized(r@),
    decreases seq_size(xs@), xs@.len(),
{
    let mut xs = xs;
    if xs.len() == 0 {
        let r: Vec<Expr> = Vec::new();
        proof {
            assert(seq_pre_normalized(r@));
        }
        return r;
    }
    proof {
        lemma_seq_size_elem(xs@, 0);
        lemma_seq_size_skip(xs@);
    }
    let x = xs.remove(0);
    let y = pre_transform_expr(x);
    let mut rest = pre_transform_exprs(xs);
    let ghost r0 = rest@;
    rest.insert(0, y);
    proof {
        assert(rest@[0] == y);
        assert(rest@.skip(1) =~= r0);
        assert(seq_pre_normalized(rest@));
    }
    rest
}

/// The total size of a sequence's tail.
proof fn lemma_seq_size_skip(s: Seq<Expr>)
    requires
        s.len() > 0,
    ensures
        seq_size(s.skip(1)) < seq_size(s),
        seq_size(s.skip(1)) == seq_size(s) - s[0].size(),
{
    assert(seq_size(s) == s[0].size() + seq_size(s.skip(1)));
    assert(s[0].size() >= 1);
}

/// Applies the `PreTransform` rule at a unary node with a rewritten operand.
fn pre_apply_unary(op: UnaryOp, x: Expr) -> (r: Expr)
    requires
        pre_normalized(x),
    ensures
        pre_normalized(r),
{
    if matches!(op, UnaryOp::Neg) {
        // (Neg x) → (Times -1 x)
        let m = Expr::minus_one();
        proof {
            assert(pre_normalized(m));
        }
        let mut v: Vec<Expr> = Vec::new();
        v.push(m);
        v.push(x);
        proof {
            lemma_two_elem_seq_pre_normalized(v@);
        }
        let r = Expr::nary(NaryOp::Times, v);
        proof {
            assert(pre_normalized(r));
        }
        r
    } else if matches!(op, UnaryOp::Sqrt) {
        // (Sqrt x) → (Pow x 1/2)
        let h = Expr::one_half();
        proof {
            assert(pre_normalized(h));
        }
        let r = Expr::binary(BinaryOp::Pow, Box::new(x), Box::new(h));
        proof {
            assert(pre_normalized(r));
        }
        r
    } else {
        let r = Expr::unary(op, Box::new(x));
        proof {
            assert(pre_normalized(r));
        }
        r
    }
}

/// A two-element sequence of pre-normalized expressions is pre-normalized.
proof fn lemma_two_elem_seq_pre_normalized(s: Seq<Expr>)
    requires
        s.len() == 2,
        pre_normalized(s[0]),
        pre_normalized(s[1]),
    ensures
        seq_pre_normalized(s),
{
    assert(s.skip(1).len() == 1);
    assert(s.skip(1)[0] == s[1]);
    assert(s.skip(1).skip(1) =~= Seq::<Expr>::empty());
    assert(seq_pre_normalized(s.skip(1).skip(1)));
    assert(seq_pre_normalized(s.skip(1)));
    assert(seq_pre_normalized(s));
}

/// Builds an n-ary node over two pre-normalized operands.
fn pre_pair(op: NaryOp, x: Expr, y: Expr) -> (r: Expr)
    requires
        pre_normalized(x),
        pre_normalized(y),
    ensures
        pre_normalized(r),
        r.kind matches ExprKind::Nary(o, xs) && o == op && xs@.len() == 2,
{
    let mut v: Vec<Expr> = Vec::new();
    v.push(x);
    v.push(y);
    proof {
        lemma_two_elem_seq_pre_normalized(v@);
    }
    let r = Expr::nary(op, v);
    proof {
        assert(pre_normalized(r));
    }
    r
}

/// Applies the `PreTransform` rule at a binary node with rewritten operands.
fn pre_apply_binary(op: BinaryOp, x: Expr, y: Expr) -> (r: Expr)
    requires
        pre_normalized(x),
        pre_normalized(y),
    ensures
        pre_normalized(r),
{
    match op {
        BinaryOp::Add => {
            // (Add x y) → (Plus x y)
            pre_pair(NaryOp::Plus, x, y)
        },
        BinaryOp::Mul => {
            // (Mul x y) → (Times x y)
            pre_pair(NaryOp::Times, x, y)
        },
        BinaryOp::Sub => {
            // (Sub x y) → (Plus x (Times -1 y))
            let m = Expr::minus_one();
            proof {
                assert(pre_normalized(m));
            }
            let neg_y = pre_pair(NaryOp::Times, m, y);
            pre_pair(NaryOp::Plus, x, neg_y)
        },
        BinaryOp::Div => pre_apply_div(x, y),
        _ => {
            let r = Expr::binary(op, Box::new(x), Box::new(y));
            proof {
                assert(pre_normalized(r));
            }
            r
        },
    }
}

/// Applies the `PreTransform` rule at a division with rewritten operands.
fn pre_apply_div(x: Expr, y: Expr) -> (r: Expr)
    requires
        pre_normalized(x),
        pre_normalized(y),
    ensures
        pre_normalized(r),
{
    let sin_over_arg = match &x.kind {
        ExprKind::Unary(UnaryOp::Sin, z) => expr_eq(z, &y),
        _ => false,
    };
    if sin_over_arg {
        // (Div (Sin y) y) → (Sinc (UndefAt0 y))
        let u = Expr::unary(UnaryOp::UndefAt0, Box::new(y));
        proof {
            assert(pre_normalized(u));
        }
        let r = Expr::unary(UnaryOp::Sinc, Box::new(u));
        proof {
            assert(pre_normalized(r));
        }
        return r;
    }
    let arg_over_sin = match &y.kind {
        ExprKind::Unary(UnaryOp::Sin, z) => expr_eq(z, &x),
        _ => false,
    };
    if arg_over_sin {
        // (Div x (Sin x)) → (Pow (Sinc (UndefAt0 x)) -1)
        let u = Expr::unary(UnaryOp::UndefAt0, Box::new(x));
        proof {
            assert(pre_normalized(u));
        }
        let sc = Expr::unary(UnaryOp::Sinc, Box::new(u));
        proof {
            assert(pre_normalized(sc));
        }
        let m = Expr::minus_one();
        proof {
            assert(pre_normalized(m));
        }
        let r = Expr::binary(BinaryOp::Pow, Box::new(sc), Box::new(m));
        proof {
            assert(pre_normalized(r));
        }
        return r;
    }
    // (Div x y) → (Times x (Pow y -1))
    let m = Expr::minus_one();
    proof {
        assert(pre_normalized(m));
    }
    let recip_y = Expr::binary(BinaryOp::Pow, Box::new(y), Box::new(m));
    proof {
        assert(pre_normalized(recip_y));
    }
    pre_pair(NaryOp::Times, x, recip_y)
}

/// Every n-ary node of the expression has at least two operands, and none of
/// its operands is an n-ary node of the same operation.
pub open spec fn flattened(e: Expr) -> bool
    decreases e,
{
    match e.kind {
        ExprKind::Constant(_) => true,
        ExprKind::Var(_) => true,
        ExprKind::Unary(_, x) => flattened(*x),
        ExprKind::Binary(_, x, y) => flattened(*x) && flattened(*y),
        ExprKind::Nary(op, xs) => xs@.len() >= 2 && seq_flattened_under(xs@, op),
        ExprKind::Pown(x, _) => flattened(*x),
        ExprKind::Rootn(x, _) => flattened(*x),
        ExprKind::List(xs) => seq_flattened(xs@),
        ExprKind::Uninit => true,
    }
}

/// Every expression of the sequence is flattened.
pub open spec fn seq_flattened(s: Seq<Expr>) -> bool
    decreases s,
{
    s.len() == 0 || (flattened(s[0]) && seq_flattened(s.skip(1)))
}

/// Every expression of the sequence is flattened and none is an n-ary node
/// of the given operation.
pub open spec fn seq_flattened_under(s: Seq<Expr>, op: NaryOp) -> bool
    decreases s,
{
    s.len() == 0 || (flattened(s[0]) && !is_nary_of(s[0], op) && seq_flattened_under(
        s.skip(1),
        op,
    ))
}

/// Appending keeps a sequence flattened under an operation.
proof fn lemma_seq_flattened_under_push(s: Seq<Expr>, op: NaryOp, x: Expr)
    requires
        seq_flattened_under(s, op),
        flattened(x),
        !is_nary_of(x, op),
    ensures
        seq_flattened_under(s.push(x), op),
    decreases s.len(),
{
    if s.len() == 0 {
        assert(s.push(x).skip(1) =~= Seq::<Expr>::empty());
        assert(s.push(x)[0] == x);
        assert(seq_flattened_under(s.push(x).skip(1), op));
        assert(seq_flattened_under(s.push(x), op));
    } else {
        lemma_seq_flattened_under_push(s.skip(1), op, x);
        assert(s.push(x).skip(1) =~= s.skip(1).push(x));
        assert(s.push(x)[0] == s[0]);
        assert(seq_flattened_under(s.push(x), op));
    }
}

/// Flattens out terms nested inside `Plus` and `Times` nodes of the same
/// operation; an n-ary node with no operands becomes the operation's
/// identity, and one with a single operand becomes that operand.
#[derive(Default)]
pub struct Flatten {
    /// Whether any node was changed.
    pub modified: bool,
}

impl VisitMut for Flatten {
    fn visit_expr_mut(&mut self, e: &mut Expr) {
        let mut tmp = Expr::uninit();
        core::mem::swap(e, &mut tmp);
        let (r, changed) = flatten_expr(tmp);
        self.modified = self.modified || changed;
        *e = r;
    }
}

/// Flattens the expression bottom-up. Returns the flattened expression and
/// whether anything changed.
pub fn flatten_expr(e: Expr) -> (r: (Expr, bool))
    ensures
        flattened(r.0),
    decreases e.size(), 0nat,
{
    let ghost e0 = e;
    match e.kind {
        ExprKind::Constant(x) => (Expr::constant(x), false),
        ExprKind::Var(s) => (Expr::var(s), false),
        ExprKind::Unary(op, x) => {
            proof {
                assert(e0.size() > (*x).size());
            }
            let (xt, c) = flatten_expr(*x);
            let r = Expr::unary(op, Box::new(xt));
            proof {
                assert(flattened(r));
            }
            (r, c)
        },
        ExprKind::Binary(op, x, y) => {
            proof {
                assert(e0.size() > (*x).size());
                assert(e0.size() > (*y).size());
            }
            let (xt, cx) = flatten_expr(*x);
            let (yt, cy) = flatten_expr(*y);
            let r = Expr::binary(op, Box::new(xt), Box::new(yt));
            proof {
                assert(flattened(r));
            }
            (r, cx || cy)
        },
        ExprKind::Nary(op, xs) => {
            let (ys, c) = flatten_exprs(xs);
            flatten_apply_nary(op, ys, c)
        },
        ExprKind::Pown(x, n) => {
            proof {
                assert(e0.size() > (*x).size());
            }
            let (xt, c) = flatten_expr(*x);
            let r = Expr::pown(Box::new(xt), n);
            proof {
                assert(flattened(r));
            }
            (r, c)
        },
        ExprKind::Rootn(x, n) => {
            proof {
                assert(e0.size() > (*x).size());
            }
            let (xt, c) = flatten_expr(*x);
            let r = Expr::rootn(Box::new(xt), n);
            proof {
                assert(flattened(r));
            }
            (r, c)
        },
        ExprKind::List(xs) => {
            let (ys, c) = flatten_exprs(xs);
            let r = Expr::new_list(ys);
            proof {
                assert(flattened(r));
            }
            (r, c)
        },
        ExprKind::Uninit => (Expr::uninit(), false),
    }
}

/// Flattens every expression of the vector.
fn flatten_exprs(xs: Vec<Expr>) -> (r: (Vec<Expr>, bool))
    ensures
        seq_flattened(r.0@),
    decreases seq_size(xs@), xs@.len(),
{
    let mut xs = xs;
    if xs.len() == 0 {
        let r: Vec<Expr> = Vec::new();
        proof {
            assert(seq_flattened(r@));
        }
        return (r, false);
    }
    proof {
        lemma_seq_size_elem(xs@, 0);
        lemma_seq_size_skip(xs@);
    }
    let x = xs.remove(0);
    let (y, cy) = flatten_expr(x);
    let (mut rest, cr) = flatten_exprs(xs);
    let ghost r0 = rest@;
    rest.insert(0, y);
    proof {
        assert(rest@[0] == y);
        assert(rest@.skip(1) =~= r0);
        assert(seq_flattened(rest@));
    }
    (rest, cy || cr)
}

/// Rebuilds an n-ary node from flattened operands: an empty node becomes the
/// identity constant, a singleton its operand, and operands that are n-ary
/// nodes of the same operation are spliced in place.
fn flatten_apply_nary(op: NaryOp, ys: Vec<Expr>, child_changed: bool) -> (r: (Expr, bool))
    requires
        seq_flattened(ys@),
    ensures
        flattened(r.0),
{
    let mut ys = ys;
    if ys.len() == 0 {
        let r = if matches!(op, NaryOp::Plus) {
            Expr::zero()
        } else {
            Expr::one()
        };
        proof {
            assert(flattened(r));
        }
        return (r, true);
    }
    if ys.len() == 1 {
        let r = ys.remove(0);
        return (r, true);
    }
    let ghost n = ys@.len();
    let mut acc: Vec<Expr> = Vec::new();
    let mut changed = child_changed;
    proof {
        assert(seq_flattened_under(acc@, op));
    }
    while ys.len() > 0
        invariant
            seq_flattened(ys@),
            seq_flattened_under(acc@, op),
            acc@.len() + ys@.len() >= n,
            n >= 2,
        decreases ys@.len(),
    {
        let x = ys.remove(0);
        let is_same = match &x.kind {
            ExprKind::Nary(o, _) => matches!((*o, op), (NaryOp::Plus, NaryOp::Plus) | (
                NaryOp::Times,
                NaryOp::Times,
            )),
            _ => false,
        };
        if is_same {
            changed = true;
            match x.kind {
                ExprKind::Nary(_, cc) => {
                    let mut cc = cc;
                    proof {
                        assert(flattened(x));
                        assert(seq_flattened_under(cc@, op));
                        assert(cc@.len() >= 2);
                    }
                    let ghost cc_len = cc@.len();
                    let ghost acc0 = acc@.len() as int;
                    while cc.len() > 0
                        invariant
                            seq_flattened_under(cc@, op),
                            seq_flattened_under(acc@, op),
                            acc@.len() == acc0 + cc_len - cc@.len(),
                        decreases cc@.len(),
                    {
                        let c = cc.remove(0);
                        proof {
                            lemma_seq_flattened_under_push(acc@, op, c);
                        }
                        acc.push(c);
                    }
                },
                _ => {},
            }
        } else {
            proof {
                lemma_seq_flattened_under_push(acc@, op, x);
            }
            acc.push(x);
        }
    }
    let r = Expr::nary(op, acc);
    proof {
        assert(flattened(r));
    }
    (r, changed)
}

/// Performs exact constant folding: arithmetic on rational constants is
/// carried out exactly, and is left unfolded whenever the exact result
/// cannot be represented. The rational constants hold a 64-bit numerator
/// and denominator, so folding also stops on values that an
/// arbitrary-precision representation would still fold; such nodes are
/// simply left as they are, which is always sound.
#[derive(Default)]
pub struct FoldConstant {
    /// Whether any node was changed.
    pub modified: bool,
}

impl VisitMut for FoldConstant {
    fn visit_expr_mut(&mut self, e: &mut Expr) {
        let mut tmp = Expr::uninit();
        core::mem::swap(e, &mut tmp);
        let (r, changed) = fold_expr(tmp);
        self.modified = self.modified || changed;
        *e = r;
    }
}

/// Reads the rational constant of a node, if it is one.
fn as_constant(e: &Expr) -> (r: Option<Rational>)
    ensures
        r matches Some(q) ==> e.kind == ExprKind::Constant(q),
        r is None ==> !(e.kind matches ExprKind::Constant(_)),
{
    match &e.kind {
        ExprKind::Constant(x) => Some(*x),
        _ => None,
    }
}

/// Folds constants bottom-up. Returns the folded expression and whether
/// anything changed.
fn fold_expr(e: Expr) -> (r: (Expr, bool))
    decreases e.size(), 0nat,
{
    let ghost e0 = e;
    match e.kind {
        ExprKind::Constant(x) => (Expr::constant(x), false),
        ExprKind::Var(s) => (Expr::var(s), false),
        ExprKind::Unary(op, x) => {
            proof {
                assert(e0.size() > (*x).size());
            }
            let (xt, c) = fold_expr(*x);
            if matches!(op, UnaryOp::Neg) {
                let cx = as_constant(&xt);
                match cx {
                    Some(a) => {
                        if a.wf_check() {
                            match a.neg() {
                                Some(v) => {
                                    return (Expr::constant(v), true);
                                },
                                None => {},
                            }
                        }
                    },
                    None => {},
                }
            }
            (Expr::unary(op, Box::new(xt)), c)
        },
        ExprKind::Binary(op, x, y) => {
            proof {
                assert(e0.size() > (*x).size());
                assert(e0.size() > (*y).size());
            }
            let (xt, cx) = fold_expr(*x);
            let (yt, cy) = fold_expr(*y);
            let ca = as_constant(&xt);
            let cb = as_constant(&yt);
            match (ca, cb) {
                (Some(a), Some(b)) => {
                    if a.wf_check() && b.wf_check() {
                        match fold_binary(op, a, b) {
                            Some(v) => (Expr::constant(v), true),
                            None => (Expr::binary(op, Box::new(xt), Box::new(yt)), cx || cy),
                        }
                    } else {
                        (Expr::binary(op, Box::new(xt), Box::new(yt)), cx || cy)
                    }
                },
                _ => (Expr::binary(op, Box::new(xt), Box::new(yt)), cx || cy),
            }
        },
        ExprKind::Nary(op, xs) => {
            let (ys, c) = fold_exprs(xs);
            let second_const = if ys.len() >= 2 {
                matches!(&ys[1].kind, ExprKind::Constant(_))
            } else {
                false
            };
            if second_const {
                let (zs, merged) = fold_merge(op, ys);
                (Expr::nary(op, zs), c || merged)
            } else {
                (Expr::nary(op, ys), c)
            }
        },
        ExprKind::Pown(x, n) => {
            proof {
                assert(e0.size() > (*x).size());
            }
            let (xt, c) = fold_expr(*x);
            let cx = as_constant(&xt);
            match cx {
                Some(a) => {
                    if a.wf_check() {
                        match a.pow_int(n) {
                            Some(v) => {
                                return (Expr::constant(v), true);
                            },
                            None => {},
                        }
                    }
                    (Expr::pown(Box::new(xt), n), c)
                },
                None => (Expr::pown(Box::new(xt), n), c),
            }
        },
        ExprKind::Rootn(x, n) => {
            proof {
                assert(e0.size() > (*x).size());
            }
            let (xt, c) = fold_expr(*x);
            (Expr::rootn(Box::new(xt), n), c)
        },
        ExprKind::List(xs) => {
            let (ys, c) = fold_exprs(xs);
            (Expr::new_list(ys), c)
        },
        ExprKind::Uninit => (Expr::uninit(), false),
    }
}

/// Folds every expression of the vector.
fn fold_exprs(xs: Vec<Expr>) -> (r: (Vec<Expr>, bool))
    decreases seq_size(xs@), xs@.len(),
{
    let mut xs = xs;
    if xs.len() == 0 {
        let r: Vec<Expr> = Vec::new();
        return (r, false);
    }
    proof {
        lemma_seq_size_elem(xs@, 0);
        lemma_seq_size_skip(xs@);
    }
    let x = xs.remove(0);
    let (y, cy) = fold_expr(x);
    let (mut rest, cr) = fold_exprs(xs);
    rest.insert(0, y);
    (rest, cy || cr)
}

/// Folds one binary operation on two exact rational constants, when the
/// exact result is representable.
fn fold_binary(op: BinaryOp, a: Rational, b: Rational) -> (r: Option<Rational>)
    requires
        a.wf(),
        b.wf(),
    ensures
        r matches Some(q) ==> q.wf(),
{
    match op {
        BinaryOp::Add => a.add(&b),
        BinaryOp::Mul => a.mul(&b),
        BinaryOp::Sub => match b.neg() {
            Some(nb) => a.add(&nb),
            None => None,
        },
        BinaryOp::Div => match b.recip() {
            Some(ib) => a.mul(&ib),
            None => None,
        },
        BinaryOp::Pow => {
            if b.is_int() && -0x8000_0000 <= b.num && b.num <= 0x7fff_ffff {
                a.pow_int(b.num as i32)
            } else {
                None
            }
        },
        _ => None,
    }
}

/// Merges adjacent constant operands of a `Plus` or `Times` node.
fn fold_merge(op: NaryOp, xs: Vec<Expr>) -> (r: (Vec<Expr>, bool))
{
    let mut xs = xs;
    let mut acc: Vec<Expr> = Vec::new();
    let mut changed = false;
    while xs.len() > 0
        decreases xs@.len(),
    {
        let x = xs.remove(0);
        if acc.len() == 0 {
            acc.push(x);
        } else {
            let last_const = as_constant(&acc[acc.len() - 1]);
            let next_const = as_constant(&x);
            let merged: Option<Rational> = match (last_const, next_const) {
                (Some(a), Some(b)) => {
                    if a.wf_check() && b.wf_check() {
                        if matches!(op, NaryOp::Plus) {
                            a.add(&b)
                        } else {
                            a.mul(&b)
                        }
                    } else {
                        None
                    }
                },
                _ => None,
            };
            match merged {
                Some(v) => {
                    let _ = acc.pop();
                    acc.push(Expr::constant(v));
                    changed = true;
                },
                None => {
                    acc.push(x);
                },
            }
        }
    }
    (acc, changed)
}

/// Transforms expressions into simpler normalized forms: merges equal or
/// scaled terms under `Plus`, merges powers under `Times`, and pushes `Not`
/// through comparisons and connectives.
#[derive(Default)]
pub struct Transform {
    /// Whether the last visited node group changed: an n-ary node records
    /// whether it shrank, overriding what earlier rule hits recorded.
    pub modified: bool,
}

impl VisitMut for Transform {
    fn visit_expr_mut(&mut self, e: &mut Expr) {
        let mut tmp = Expr::uninit();
        core::mem::swap(e, &mut tmp);
        let (r, flag) = transform_expr(tmp, self.modified);
        self.modified = flag;
        *e = r;
    }
}

/// The comparison operator negation table; `None` for non-comparisons.
fn negate_cmp(op: BinaryOp) -> (r: Option<BinaryOp>)
    ensures
        r matches Some(o) ==> o != BinaryOp::And && o != BinaryOp::Or,
{
    match op {
        BinaryOp::Eq => Some(BinaryOp::Neq),
        BinaryOp::Ge => Some(BinaryOp::Nge),
        BinaryOp::Gt => Some(BinaryOp::Ngt),
        BinaryOp::Le => Some(BinaryOp::Nle),
        BinaryOp::Lt => Some(BinaryOp::Nlt),
        BinaryOp::Neq => Some(BinaryOp::Eq),
        BinaryOp::Nge => Some(BinaryOp::Ge),
        BinaryOp::Ngt => Some(BinaryOp::Gt),
        BinaryOp::Nle => Some(BinaryOp::Le),
        BinaryOp::Nlt => Some(BinaryOp::Lt),
        _ => None,
    }
}

/// Transforms the expression bottom-up, threading the `modified` flag:
/// rewrite rules set it, and every `Plus` or `Times` node overwrites it
/// with whether that node shrank.
fn transform_expr(e: Expr, flag_in: bool) -> (r: (Expr, bool))
    decreases e.size(), 0nat,
{
    let ghost e0 = e;
    match e.kind {
        ExprKind::Constant(x) => (Expr::constant(x), flag_in),
        ExprKind::Var(s) => (Expr::var(s), flag_in),
        ExprKind::Unary(op, x) => {
            proof {
                assert(e0.size() > (*x).size());
            }
            let (xt, flag) = transform_expr(*x, flag_in);
            if matches!(op, UnaryOp::Not) {
                transform_not(xt, flag)
            } else {
                (Expr::unary(op, Box::new(xt)), flag)
            }
        },
        ExprKind::Binary(op, x, y) => {
            proof {
                assert(e0.size() > (*x).size());
                assert(e0.size() > (*y).size());
            }
            let (xt, f1) = transform_expr(*x, flag_in);
            let (yt, f2) = transform_expr(*y, f1);
            if matches!(op, BinaryOp::Pow) {
                let cb = as_constant(&yt);
                match cb {
                    Some(a) => {
                        if a.is_int_value(1) {
                            // (Pow x 1) → x
                            return (xt, true);
                        }
                        (Expr::binary(op, Box::new(xt), Box::new(yt)), f2)
                    },
                    None => (Expr::binary(op, Box::new(xt), Box::new(yt)), f2),
                }
            } else {
                (Expr::binary(op, Box::new(xt), Box::new(yt)), f2)
            }
        },
        ExprKind::Nary(op, xs) => {
            let (ys, _f) = transform_exprs(xs, flag_in);
            let len0 = ys.len();
            let zs = if matches!(op, NaryOp::Plus) {
                let kept = drop_int_constants(ys, 0);
                plus_merge(kept)
            } else {
                let kept = drop_int_constants(ys, 1);
                times_merge(kept)
            };
            let shrank = zs.len() < len0;
            (Expr::nary(op, zs), shrank)
        },
        ExprKind::Pown(x, n) => {
            proof {
                assert(e0.size() > (*x).size());
            }
            let (xt, flag) = transform_expr(*x, flag_in);
            (Expr::pown(Box::new(xt), n), flag)
        },
        ExprKind::Rootn(x, n) => {
            proof {
                assert(e0.size() > (*x).size());
            }
            let (xt, flag) = transform_expr(*x, flag_in);
            (Expr::rootn(Box::new(xt), n), flag)
        },
        ExprKind::List(xs) => {
            let (ys, flag) = transform_exprs(xs, flag_in);
            (Expr::new_list(ys), flag)
        },
        ExprKind::Uninit => (Expr::uninit(), flag_in),
    }
}

/// Transforms every expression of the vector, threading the flag.
fn transform_exprs(xs: Vec<Expr>, flag_in: bool) -> (r: (Vec<Expr>, bool))
    decreases seq_size(xs@), xs@.len(),
{
    let mut xs = xs;
    if xs.len() == 0 {
        let r: Vec<Expr> = Vec::new();
        return (r, flag_in);
    }
    proof {
        lemma_seq_size_elem(xs@, 0);
        lemma_seq_size_skip(xs@);
    }
    let x = xs.remove(0);
    let (y, f1) = transform_expr(x, flag_in);
    let (mut rest, f2) = transform_exprs(xs, f1);
    rest.insert(0, y);
    (rest, f2)
}

/// Applies the `Not` rules to a transformed operand.
fn transform_not(x: Expr, flag_in: bool) -> (r: (Expr, bool))
{
    match x.kind {
        ExprKind::Binary(op, x1, x2) => {
            if matches!(op, BinaryOp::And) {
                // (Not (And x1 x2)) → (Or (Not x1) (Not x2))
                let n1 = Expr::unary(UnaryOp::Not, x1);
                let n2 = Expr::unary(UnaryOp::Not, x2);
                (Expr::binary(BinaryOp::Or, Box::new(n1), Box::new(n2)), true)
            } else if matches!(op, BinaryOp::Or) {
                // (Not (Or x1 x2)) → (And (Not x1) (Not x2))
                let n1 = Expr::unary(UnaryOp::Not, x1);
                let n2 = Expr::unary(UnaryOp::Not, x2);
                (Expr::binary(BinaryOp::And, Box::new(n1), Box::new(n2)), true)
            } else {
                match negate_cmp(op) {
                    Some(nop) => {
                        // (Not (op x1 x2)) → (!op x1 x2)
                        (Expr::binary(nop, x1, x2), true)
                    },
                    None => (
                        Expr::unary(
                            UnaryOp::Not,
                            Box::new(Expr::binary(op, x1, x2)),
                        ),
                        flag_in,
                    ),
                }
            }
        },
        _ => {
            let x = Expr { kind: x.kind, ..x };
            (Expr::unary(UnaryOp::Not, Box::new(x)), flag_in)
        },
    }
}

/// Removes the constant operands equal to the given integer: zeros under
/// `Plus`, ones under `Times`.
fn drop_int_constants(xs: Vec<Expr>, v: i64) -> (r: Vec<Expr>)
    ensures
        r@.len() <= xs@.len(),
{
    let mut xs = xs;
    let mut out: Vec<Expr> = Vec::new();
    let ghost n = xs@.len();
    while xs.len() > 0
        invariant
            out@.len() + xs@.len() <= n,
        decreases xs@.len(),
    {
        let x = xs.remove(0);
        let keep = match &x.kind {
            ExprKind::Constant(c) => !c.is_int_value(v),
            _ => true,
        };
        if keep {
            out.push(x);
        }
    }
    out
}

/// Merges one adjacent pair under `Plus`: equal terms and scaled copies of
/// one term combine into a single scaled term.
fn plus_rule(x: &Expr, y: &Expr) -> (r: Option<Expr>)
{
    // x + x → 2 x
    if expr_eq(x, y) {
        let mut v: Vec<Expr> = Vec::new();
        v.push(Expr::two());
        v.push(clone_expr(x));
        return Some(Expr::nary(NaryOp::Times, v));
    }
    // x + a x → (1 + a) x
    match &y.kind {
        ExprKind::Nary(NaryOp::Times, ys) => {
            if ys.len() == 2 {
                if matches!(&ys[0].kind, ExprKind::Constant(_)) && expr_eq(x, &ys[1]) {
                    let mut coeff: Vec<Expr> = Vec::new();
                    coeff.push(Expr::one());
                    coeff.push(clone_expr(&ys[0]));
                    let mut v: Vec<Expr> = Vec::new();
                    v.push(Expr::nary(NaryOp::Plus, coeff));
                    v.push(clone_expr(x));
                    return Some(Expr::nary(NaryOp::Times, v));
                }
            }
        },
        _ => {},
    }
    match (&x.kind, &y.kind) {
        (ExprKind::Nary(NaryOp::Times, xs2), ExprKind::Nary(NaryOp::Times, ys2)) => {
            let x_leading = xs2.len() >= 1 && matches!(&xs2[0].kind, ExprKind::Constant(_));
            let y_leading = ys2.len() >= 1 && matches!(&ys2[0].kind, ExprKind::Constant(_));
            if x_leading && y_leading && vec_tail_eq(xs2, 1, ys2, 1) {
                // a x… + b x… → (a + b) x…
                let mut coeff: Vec<Expr> = Vec::new();
                coeff.push(clone_expr(&xs2[0]));
                coeff.push(clone_expr(&ys2[0]));
                let mut v: Vec<Expr> = Vec::new();
                v.push(Expr::nary(NaryOp::Plus, coeff));
                let mut i: usize = 1;
                while i < xs2.len()
                    decreases xs2.len() - i,
                {
                    v.push(clone_expr(&xs2[i]));
                    i = i + 1;
                }
                return Some(Expr::nary(NaryOp::Times, v));
            }
            if y_leading && vec_tail_eq(xs2, 0, ys2, 1) {
                // x… + a x… → (1 + a) x…
                let mut coeff: Vec<Expr> = Vec::new();
                coeff.push(Expr::one());
                coeff.push(clone_expr(&ys2[0]));
                let mut v: Vec<Expr> = Vec::new();
                v.push(Expr::nary(NaryOp::Plus, coeff));
                let mut i: usize = 0;
                while i < xs2.len()
                    decreases xs2.len() - i,
                {
                    v.push(clone_expr(&xs2[i]));
                    i = i + 1;
                }
                return Some(Expr::nary(NaryOp::Times, v));
            }
            None
        },
        _ => None,
    }
}

/// Compares `a[fa..]` and `b[fb..]` structurally.
fn vec_tail_eq(a: &Vec<Expr>, fa: usize, b: &Vec<Expr>, fb: usize) -> (r: bool)
{
    if a.len() < fa || b.len() < fb {
        return false;
    }
    if a.len() - fa != b.len() - fb {
        return false;
    }
    let mut i: usize = 0;
    let n = a.len() - fa;
    let mut ok = true;
    while i < n
        invariant
            i <= n,
            fa + n == a@.len(),
            fb + n == b@.len(),
            a@.len() <= usize::MAX,
            b@.len() <= usize::MAX,
        decreases n - i,
    {
        if !expr_eq(&a[fa + i], &b[fb + i]) {
            ok = false;
        }
        i = i + 1;
    }
    ok
}

/// Merges one adjacent pair under `Times`: powers of one base with
/// integer exponents on the same side of zero combine, and equal factors
/// become a square.
fn times_rule(x: &Expr, y: &Expr) -> (r: Option<Expr>)
{
    // x^a x^b /. a, b ∈ ℤ ∧ (a, b < 0 ∨ a, b ≥ 0) → x^(a + b)
    match (&x.kind, &y.kind) {
        (
            ExprKind::Binary(BinaryOp::Pow, x1, x2),
            ExprKind::Binary(BinaryOp::Pow, y1, y2),
        ) => {
            let ca = as_constant(x2);
            let cb = as_constant(y2);
            match (ca, cb) {
                (Some(a), Some(b)) => {
                    let int_pair = a.is_int() && b.is_int();
                    let same_sign = (a.num < 0 && b.num < 0) || (a.num >= 0 && b.num >= 0);
                    if int_pair && same_sign && expr_eq(x1, y1) {
                        let mut exps: Vec<Expr> = Vec::new();
                        exps.push(Expr::constant(a));
                        exps.push(Expr::constant(b));
                        return Some(Expr::binary(
                            BinaryOp::Pow,
                            Box::new(clone_expr(x1)),
                            Box::new(Expr::nary(NaryOp::Plus, exps)),
                        ));
                    }
                },
                _ => {},
            }
        },
        _ => {},
    }
    // x x^a /. a ∈ ℤ ∧ a ≥ 0 → x^(1 + a)
    match &y.kind {
        ExprKind::Binary(BinaryOp::Pow, y1, y2) => {
            let cb = as_constant(y2);
            match cb {
                Some(a) => {
                    if a.is_int() && a.num >= 0 && expr_eq(x, y1) {
                        let mut exps: Vec<Expr> = Vec::new();
                        exps.push(Expr::one());
                        exps.push(Expr::constant(a));
                        return Some(Expr::binary(
                            BinaryOp::Pow,
                            Box::new(clone_expr(x)),
                            Box::new(Expr::nary(NaryOp::Plus, exps)),
                        ));
                    }
                },
                None => {},
            }
        },
        _ => {},
    }
    // x x → x^2
    if expr_eq(x, y) {
        return Some(Expr::binary(
            BinaryOp::Pow,
            Box::new(clone_expr(x)),
            Box::new(Expr::two()),
        ));
    }
    None
}

/// Folds a merge rule over adjacent operands.
fn plus_merge(xs: Vec<Expr>) -> (r: Vec<Expr>)
    ensures
        r@.len() <= xs@.len(),
{
    let mut xs = xs;
    let mut acc: Vec<Expr> = Vec::new();
    let ghost n = xs@.len();
    while xs.len() > 0
        invariant
            acc@.len() + xs@.len() <= n,
        decreases xs@.len(),
    {
        let x = xs.remove(0);
        if acc.len() == 0 {
            acc.push(x);
        } else {
            let merged = plus_rule(&acc[acc.len() - 1], &x);
            match merged {
                Some(m) => {
                    let _ = acc.pop();
                    acc.push(m);
                },
                None => {
                    acc.push(x);
                },
            }
        }
    }
    acc
}

/// Folds a merge rule over adjacent operands.
fn times_merge(xs: Vec<Expr>) -> (r: Vec<Expr>)
    ensures
        r@.len() <= xs@.len(),
{
    let mut xs = xs;
    let mut acc: Vec<Expr> = Vec::new();
    let ghost n = xs@.len();
    while xs.len() > 0
        invariant
            acc@.len() + xs@.len() <= n,
        decreases xs@.len(),
    {
        let x = xs.remove(0);
        if acc.len() == 0 {
            acc.push(x);
        } else {
            let merged = times_rule(&acc[acc.len() - 1], &x);
            match merged {
                Some(m) => {
                    let _ = acc.pop();
                    acc.push(m);
                },
                None => {
                    acc.push(x);
                },
            }
        }
    }
    acc
}

/// Sequencing of comparisons: the second decides when the first ties.
pub open spec fn spec_then_cmp(c1: int, c2: int) -> int {
    if c1 != 0 {
        c1
    } else {
        c2
    }
}

/// Lexicographic comparison of character sequences by scalar value.
pub open spec fn spec_chars_cmp(a: Seq<char>, b: Seq<char>) -> int
    decreases a.len(),
{
    if a.len() == 0 && b.len() == 0 {
        0
    } else if a.len() == 0 {
        -1
    } else if b.len() == 0 {
        1
    } else if (a[0] as u32) < (b[0] as u32) {
        -1
    } else if (a[0] as u32) > (b[0] as u32) {
        1
    } else {
        spec_chars_cmp(a.skip(1), b.skip(1))
    }
}

/// The term order used by `SortTerms`: constants first by value, then
/// powers by base and exponent, then variables by name, then `Times` lists
/// compared from their last factors; everything else ties.
pub open spec fn spec_cmp_terms(a: Expr, b: Expr) -> int
    decreases a.size() + b.size(), 0nat,
{
    match (a.kind, b.kind) {
        (ExprKind::Constant(x), ExprKind::Constant(y)) => {
            if x.num * y.den < y.num * x.den {
                -1int
            } else if y.num * x.den < x.num * y.den {
                1
            } else {
                0
            }
        },
        (ExprKind::Constant(_), _) => -1,
        (_, ExprKind::Constant(_)) => 1,
        (ExprKind::Binary(BinaryOp::Pow, x1, x2), ExprKind::Binary(BinaryOp::Pow, y1, y2)) => {
            spec_then_cmp(spec_cmp_terms(*x1, *y1), spec_cmp_terms(*x2, *y2))
        },
        (ExprKind::Binary(BinaryOp::Pow, x1, x2), _) => {
            spec_then_cmp(
                spec_cmp_terms(*x1, b),
                spec_cmp_terms(*x2, Expr::spec_const_expr(Rational { num: 1, den: 1 })),
            )
        },
        (_, ExprKind::Binary(BinaryOp::Pow, y1, y2)) => {
            spec_then_cmp(
                spec_cmp_terms(a, *y1),
                spec_cmp_terms(Expr::spec_const_expr(Rational { num: 1, den: 1 }), *y2),
            )
        },
        (ExprKind::Var(x), ExprKind::Var(y)) => spec_chars_cmp(x@, y@),
        (ExprKind::Var(_), _) => -1,
        (_, ExprKind::Var(_)) => 1,
        (ExprKind::Nary(NaryOp::Times, xs), ExprKind::Nary(NaryOp::Times, ys)) => {
            spec_cmp_rev(xs@, ys@)
        },
        _ => 0,
    }
}

/// Compares two factor lists from their last elements; ties are broken by
/// length.
pub open spec fn spec_cmp_rev(xs: Seq<Expr>, ys: Seq<Expr>) -> int
    decreases seq_size(xs) + seq_size(ys), xs.len() + ys.len() + 1nat,
    via spec_cmp_rev_decreases
{
    if xs.len() == 0 || ys.len() == 0 {
        if xs.len() < ys.len() {
            -1int
        } else if xs.len() > ys.len() {
            1
        } else {
            0
        }
    } else {
        spec_then_cmp(
            spec_cmp_terms(xs.last(), ys.last()),
            spec_cmp_rev(xs.drop_last(), ys.drop_last()),
        )
    }
}

#[via_fn]
proof fn spec_cmp_rev_decreases(xs: Seq<Expr>, ys: Seq<Expr>) {
    if xs.len() > 0 && ys.len() > 0 {
        lemma_seq_size_drop_last(xs);
        lemma_seq_size_drop_last(ys);
    }
}

/// The term order is antisymmetric: swapping the operands flips the sign.
pub proof fn lemma_cmp_terms_antisym(a: Expr, b: Expr)
    ensures
        spec_cmp_terms(b, a) == -spec_cmp_terms(a, b),
    decreases a.size() + b.size(), 0nat,
{
    let one = Expr::spec_const_expr(Rational { num: 1, den: 1 });
    match (a.kind, b.kind) {
        (ExprKind::Constant(x), ExprKind::Constant(y)) => {},
        (ExprKind::Constant(_), _) => {},
        (_, ExprKind::Constant(_)) => {},
        (ExprKind::Binary(BinaryOp::Pow, x1, x2), ExprKind::Binary(BinaryOp::Pow, y1, y2)) => {
            lemma_cmp_terms_antisym(*x1, *y1);
            lemma_cmp_terms_antisym(*x2, *y2);
        },
        (ExprKind::Binary(BinaryOp::Pow, x1, x2), _) => {
            lemma_cmp_terms_antisym(*x1, b);
            lemma_cmp_terms_antisym(*x2, one);
        },
        (_, ExprKind::Binary(BinaryOp::Pow, y1, y2)) => {
            lemma_cmp_terms_antisym(a, *y1);
            lemma_cmp_terms_antisym(one, *y2);
        },
        (ExprKind::Var(x), ExprKind::Var(y)) => {
            lemma_chars_cmp_antisym(x@, y@);
        },
        (ExprKind::Var(_), _) => {},
        (_, ExprKind::Var(_)) => {},
        (ExprKind::Nary(NaryOp::Times, xs), ExprKind::Nary(NaryOp::Times, ys)) => {
            lemma_cmp_rev_antisym(xs@, ys@);
        },
        _ => {},
    }
}

/// Antisymmetry of the character comparison.
proof fn lemma_chars_cmp_antisym(a: Seq<char>, b: Seq<char>)
    ensures
        spec_chars_cmp(b, a) == -spec_chars_cmp(a, b),
    decreases a.len(),
{
    if a.len() > 0 && b.len() > 0 {
        lemma_chars_cmp_antisym(a.skip(1), b.skip(1));
    }
}

/// Antisymmetry of the factor-list comparison.
proof fn lemma_cmp_rev_antisym(xs: Seq<Expr>, ys: Seq<Expr>)
    ensures
        spec_cmp_rev(ys, xs) == -spec_cmp_rev(xs, ys),
    decreases seq_size(xs) + seq_size(ys), xs.len() + ys.len() + 1nat,
{
    if xs.len() == 0 || ys.len() == 0 {
    } else {
        proof_cmp_rev_drop(xs, ys);
        lemma_cmp_terms_antisym(xs.last(), ys.last());
        lemma_cmp_rev_antisym(xs.drop_last(), ys.drop_last());
    }
}

/// Dropping the last elements keeps total sizes bounded.
proof fn proof_cmp_rev_drop(xs: Seq<Expr>, ys: Seq<Expr>)
    requires
        xs.len() > 0,
        ys.len() > 0,
    ensures
        seq_size(xs.drop_last()) + xs.last().size() == seq_size(xs),
        seq_size(ys.drop_last()) + ys.last().size() == seq_size(ys),
{
    lemma_seq_size_drop_last(xs);
    lemma_seq_size_drop_last(ys);
}

/// The size of a sequence splits off its last element.
proof fn lemma_seq_size_drop_last(s: Seq<Expr>)
    requires
        s.len() > 0,
    ensures
        seq_size(s.drop_last()) + s.last().size() == seq_size(s),
    decreases s.len(),
{
    if s.len() == 1 {
        assert(s.drop_last() =~= Seq::<Expr>::empty());
        assert(s.skip(1) =~= Seq::<Expr>::empty());
    } else {
        lemma_seq_size_drop_last(s.skip(1));
        assert(s.skip(1).drop_last() =~= s.drop_last().skip(1));
        assert(s.drop_last()[0] == s[0]);
        assert(s.skip(1).last() == s.last());
        assert(seq_size(s.drop_last()) == s[0].size() + seq_size(s.drop_last().skip(1)));
    }
}

/// Compares two terms for `SortTerms`: −1, 0 or 1.
pub fn cmp_terms(a: &Expr, b: &Expr) -> (r: i8)
    ensures
        r as int == spec_cmp_terms(*a, *b),
    decreases a.size() + b.size(), 0nat,
{
    match (&a.kind, &b.kind) {
        (ExprKind::Constant(x), ExprKind::Constant(y)) => {
            proof {
                crate::ast::lemma_cross_products_fit(*x, *y);
            }
            let xv = (x.num as i128) * (y.den as i128);
            let yv = (y.num as i128) * (x.den as i128);
            if xv < yv {
                -1
            } else if yv < xv {
                1
            } else {
                0
            }
        },
        (ExprKind::Constant(_), _) => -1,
        (_, ExprKind::Constant(_)) => 1,
        (
            ExprKind::Binary(BinaryOp::Pow, x1, x2),
            ExprKind::Binary(BinaryOp::Pow, y1, y2),
        ) => {
            let c1 = cmp_terms(x1, y1);
            if c1 != 0 {
                c1
            } else {
                cmp_terms(x2, y2)
            }
        },
        (ExprKind::Binary(BinaryOp::Pow, x1, x2), _) => {
            let c1 = cmp_terms(x1, b);
            if c1 != 0 {
                c1
            } else {
                let one = Expr::one();
                cmp_terms(x2, &one)
            }
        },
        (_, ExprKind::Binary(BinaryOp::Pow, y1, y2)) => {
            let c1 = cmp_terms(a, y1);
            if c1 != 0 {
                c1
            } else {
                let one = Expr::one();
                cmp_terms(&one, y2)
            }
        },
        (ExprKind::Var(x), ExprKind::Var(y)) => chars_cmp(x, y),
        (ExprKind::Var(_), _) => -1,
        (_, ExprKind::Var(_)) => 1,
        (ExprKind::Nary(NaryOp::Times, xs), ExprKind::Nary(NaryOp::Times, ys)) => {
            cmp_rev(xs, ys)
        },
        _ => 0,
    }
}

/// Compares two variable names lexicographically by character value.
fn chars_cmp(a: &String, b: &String) -> (r: i8)
    ensures
        r as int == spec_chars_cmp(a@, b@),
{
    let an = a.as_str().unicode_len();
    let bn = b.as_str().unicode_len();
    let mut i: usize = 0;
    proof {
        assert(a@.skip(0) =~= a@);
        assert(b@.skip(0) =~= b@);
    }
    while i < an || i < bn
        invariant
            i <= an,
            i <= bn,
            an == a@.len(),
            bn == b@.len(),
            spec_chars_cmp(a@.skip(i as int), b@.skip(i as int)) == spec_chars_cmp(a@, b@),
        decreases an + bn - 2 * i,
    {
        if i >= an {
            proof {
                assert(a@.skip(i as int).len() == 0);
                assert(b@.skip(i as int).len() > 0);
            }
            return -1;
        }
        if i >= bn {
            return 1;
        }
        let ca = a.as_str().get_char(i);
        let cb = b.as_str().get_char(i);
        if (ca as u32) < (cb as u32) {
            return -1;
        }
        if (ca as u32) > (cb as u32) {
            return 1;
        }
        proof {
            assert(a@.skip(i as int)[0] == a@[i as int]);
            assert(b@.skip(i as int)[0] == b@[i as int]);
            assert(a@.skip(i as int).skip(1) =~= a@.skip(i as int + 1));
            assert(b@.skip(i as int).skip(1) =~= b@.skip(i as int + 1));
        }
        i = i + 1;
    }
    proof {
        assert(a@.skip(i as int).len() == 0);
        assert(b@.skip(i as int).len() == 0);
    }
    0
}

/// Compares two factor lists from their last elements.
fn cmp_rev(xs: &Vec<Expr>, ys: &Vec<Expr>) -> (r: i8)
    ensures
        r as int == spec_cmp_rev(xs@, ys@),
    decreases seq_size(xs@) + seq_size(ys@), xs@.len() + ys@.len() + 1nat,
{
    proof {
        assert(xs@.take(xs@.len() as int) =~= xs@);
        assert(ys@.take(ys@.len() as int) =~= ys@);
    }
    cmp_rev_prefix(xs, xs.len(), ys, ys.len())
}

/// Compares `xs[..nx]` and `ys[..ny]` from their last elements.
fn cmp_rev_prefix(xs: &Vec<Expr>, nx: usize, ys: &Vec<Expr>, ny: usize) -> (r: i8)
    requires
        nx <= xs@.len(),
        ny <= ys@.len(),
    ensures
        r as int == spec_cmp_rev(xs@.take(nx as int), ys@.take(ny as int)),
    decreases seq_size(xs@.take(nx as int)) + seq_size(ys@.take(ny as int)), nx + ny,
{
    if nx == 0 || ny == 0 {
        if nx < ny {
            return -1;
        } else if nx > ny {
            return 1;
        } else {
            return 0;
        }
    }
    proof {
        lemma_seq_size_drop_last(xs@.take(nx as int));
        lemma_seq_size_drop_last(ys@.take(ny as int));
        assert(xs@.take(nx as int).last() == xs@[nx - 1]);
        assert(ys@.take(ny as int).last() == ys@[ny - 1]);
        assert(xs@.take(nx as int).drop_last() =~= xs@.take(nx as int - 1));
        assert(ys@.take(ny as int).drop_last() =~= ys@.take(ny as int - 1));
    }
    let c1 = cmp_terms(&xs[nx - 1], &ys[ny - 1]);
    if c1 != 0 {
        return c1;
    }
    cmp_rev_prefix(xs, nx - 1, ys, ny - 1)
}

/// The sequence is sorted by the term order: no adjacent pair is out of
/// order.
pub open spec fn spec_sorted_terms(s: Seq<Expr>) -> bool {
    forall|i: int| 0 <= i < s.len() - 1 ==> #[trigger] spec_cmp_terms(s[i], s[i + 1]) <= 0
}

/// Sorts terms in `Plus` and `Times` nodes to bring similar ones together;
/// constants move to the front.
#[derive(Default)]
pub struct SortTerms {
    /// Whether any node was changed.
    pub modified: bool,
}

impl VisitMut for SortTerms {
    fn visit_expr_mut(&mut self, e: &mut Expr) {
        let mut tmp = Expr::uninit();
        core::mem::swap(e, &mut tmp);
        let (r, changed) = sort_terms_expr(tmp);
        self.modified = self.modified || changed;
        *e = r;
    }
}

/// Sorts the operand lists of every `Plus` and `Times` node. A node is
/// re-ordered (and reported as changed) only when some adjacent pair is
/// out of order.
pub fn sort_terms_expr(e: Expr) -> (r: (Expr, bool))
    ensures
        r.0.kind matches ExprKind::Nary(op, xs) ==> spec_sorted_terms(xs@),
        e.kind matches ExprKind::Nary(nop, nxs) ==> (r.0.kind matches ExprKind::Nary(rop, rxs)
            && rop == nop && rxs@.len() == nxs@.len()),
    decreases e.size(), 0nat,
{
    let ghost e0 = e;
    match e.kind {
        ExprKind::Constant(x) => (Expr::constant(x), false),
        ExprKind::Var(s) => (Expr::var(s), false),
        ExprKind::Unary(op, x) => {
            proof {
                assert(e0.size() > (*x).size());
            }
            let (xt, c) = sort_terms_expr(*x);
            (Expr::unary(op, Box::new(xt)), c)
        },
        ExprKind::Binary(op, x, y) => {
            proof {
                assert(e0.size() > (*x).size());
                assert(e0.size() > (*y).size());
            }
            let (xt, cx) = sort_terms_expr(*x);
            let (yt, cy) = sort_terms_expr(*y);
            (Expr::binary(op, Box::new(xt), Box::new(yt)), cx || cy)
        },
        ExprKind::Nary(op, xs) => {
            let (ys, c) = sort_terms_exprs(xs);
            let disordered = has_disorder(&ys);
            if disordered {
                let zs = insertion_sort(ys);
                (Expr::nary(op, zs), true)
            } else {
                (Expr::nary(op, ys), c)
            }
        },
        ExprKind::Pown(x, n) => {
            proof {
                assert(e0.size() > (*x).size());
            }
            let (xt, c) = sort_terms_expr(*x);
            (Expr::pown(Box::new(xt), n), c)
        },
        ExprKind::Rootn(x, n) => {
            proof {
                assert(e0.size() > (*x).size());
            }
            let (xt, c) = sort_terms_expr(*x);
            (Expr::rootn(Box::new(xt), n), c)
        },
        ExprKind::List(xs) => {
            let (ys, c) = sort_terms_exprs(xs);
            (Expr::new_list(ys), c)
        },
        ExprKind::Uninit => (Expr::uninit(), false),
    }
}

/// Sorts inside every expression of the vector.
fn sort_terms_exprs(xs: Vec<Expr>) -> (r: (Vec<Expr>, bool))
    ensures
        r.0@.len() == xs@.len(),
    decreases seq_size(xs@), xs@.len(),
{
    let mut xs = xs;
    if xs.len() == 0 {
        let r: Vec<Expr> = Vec::new();
        return (r, false);
    }
    proof {
        lemma_seq_size_elem(xs@, 0);
        lemma_seq_size_skip(xs@);
    }
    let x = xs.remove(0);
    let (y, cy) = sort_terms_expr(x);
    let (mut rest, cr) = sort_terms_exprs(xs);
    rest.insert(0, y);
    (rest, cy || cr)
}

/// Returns `true` if some adjacent pair is strictly out of order.
fn has_disorder(xs: &Vec<Expr>) -> (r: bool)
    ensures
        !r ==> spec_sorted_terms(xs@),
{
    let mut i: usize = 0;
    if xs.len() < 2 {
        return false;
    }
    while i < xs.len() - 1
        invariant
            xs@.len() >= 2,
            i <= xs@.len() - 1,
            forall|j: int| 0 <= j < i ==> #[trigger] spec_cmp_terms(xs@[j], xs@[j + 1]) <= 0,
        decreases xs@.len() - i,
    {
        if cmp_terms(&xs[i], &xs[i + 1]) > 0 {
            return true;
        }
        i = i + 1;
    }
    false
}

/// Sorts the expressions stably by the term order. The result is sorted and
/// holds exactly the same terms.
fn insertion_sort(xs: Vec<Expr>) -> (r: Vec<Expr>)
    ensures
        spec_sorted_terms(r@),
        r@.to_multiset() == xs@.to_multiset(),
        r@.len() == xs@.len(),
{
    let mut xs = xs;
    let mut out: Vec<Expr> = Vec::new();
    let ghost xs0 = xs@;
    proof {
        broadcast use vstd::seq_lib::group_to_multiset_ensures;

        assert(out@.to_multiset() =~= Multiset::<Expr>::empty());
        assert(xs@.to_multiset().add(out@.to_multiset()) =~= xs0.to_multiset());
    }
    while xs.len() > 0
        invariant
            spec_sorted_terms(out@),
            xs@.to_multiset().add(out@.to_multiset()) == xs0.to_multiset(),
            xs@.len() + out@.len() == xs0.len(),
        decreases xs@.len(),
    {
        let ghost xs_before = xs@;
        let x = xs.remove(0);
        proof {
            broadcast use vstd::seq_lib::group_to_multiset_ensures;

            assert(xs@.to_multiset() =~= xs_before.to_multiset().remove(x));
        }
        let mut j: usize = 0;
        while j < out.len() && cmp_terms(&out[j], &x) <= 0
            invariant
                j <= out@.len(),
                forall|k: int| 0 <= k < j ==> #[trigger] spec_cmp_terms(out@[k], x) <= 0,
            decreases out@.len() - j,
        {
            j = j + 1;
        }
        proof {
            if j < out@.len() {
                lemma_cmp_terms_antisym(out@[j as int], x);
            }
        }
        let ghost out_before = out@;
        out.insert(j, x);
        proof {
            broadcast use vstd::seq_lib::group_to_multiset_ensures;

            lemma_sorted_insert(out_before, x, j as int);
            assert(out@.remove(j as int) =~= out_before);
            assert(out@.to_multiset().remove(x) =~= out_before.to_multiset());
            assert(out@.to_multiset().contains(x)) by {
                assert(out@[j as int] == x);
                assert(out@.contains(x));
            }
            assert(out@.to_multiset() =~= out_before.to_multiset().insert(x));
            assert(xs@.to_multiset().add(out@.to_multiset()) =~= xs0.to_multiset());
        }
    }
    out
}

/// Inserting at the found position keeps the sequence sorted.
proof fn lemma_sorted_insert(s: Seq<Expr>, x: Expr, j: int)
    requires
        spec_sorted_terms(s),
        0 <= j <= s.len(),
        forall|k: int| 0 <= k < j ==> #[trigger] spec_cmp_terms(s[k], x) <= 0,
        j < s.len() ==> spec_cmp_terms(x, s[j]) <= 0,
    ensures
        spec_sorted_terms(s.insert(j, x)),
{
    let t = s.insert(j, x);
    assert forall|i: int| 0 <= i < t.len() - 1 implies #[trigger] spec_cmp_terms(t[i], t[i + 1])
        <= 0 by {
        if i < j - 1 {
            assert(t[i] == s[i] && t[i + 1] == s[i + 1]);
            assert(spec_cmp_terms(s[i], s[i + 1]) <= 0);
        } else if i == j - 1 {
            assert(t[i] == s[i] && t[i + 1] == x);
            assert(spec_cmp_terms(s[i], x) <= 0);
        } else if i == j {
            assert(t[i] == x && t[i + 1] == s[i]);
            assert(j < s.len());
            assert(s[i] == s[j]);
            assert(spec_cmp_terms(x, s[j]) <= 0);
        } else {
            assert(t[i] == s[i - 1] && t[i + 1] == s[i]);
            let k = i - 1;
            assert(spec_cmp_terms(s[k], s[k + 1]) <= 0);
            assert(s[k + 1] == s[i]);
        }
    }
}

/// No n-ary node remains anywhere in the expression.
pub open spec fn no_nary(e: Expr) -> bool
    decreases e,
{
    match e.kind {
        ExprKind::Constant(_) => true,
        ExprKind::Var(_) => true,
        ExprKind::Unary(_, x) => no_nary(*x),
        ExprKind::Binary(_, x, y) => no_nary(*x) && no_nary(*y),
        ExprKind::Nary(_, _) => false,
        ExprKind::Pown(x, _) => no_nary(*x),
        ExprKind::Rootn(x, _) => no_nary(*x),
        ExprKind::List(xs) => seq_no_nary(xs@),
        ExprKind::Uninit => true,
    }
}

/// Every expression of the sequence is free of n-ary nodes.
pub open spec fn seq_no_nary(s: Seq<Expr>) -> bool
    decreases s,
{
    s.len() == 0 || (no_nary(s[0]) && seq_no_nary(s.skip(1)))
}

/// A sequence flattened under an operation is flattened element-wise.
proof fn lemma_sfu_implies_sf(s: Seq<Expr>, op: NaryOp)
    requires
        seq_flattened_under(s, op),
    ensures
        seq_flattened(s),
    decreases s.len(),
{
    if s.len() > 0 {
        lemma_sfu_implies_sf(s.skip(1), op);
    }
}

/// Replaces arithmetic expressions with more optimal ones suitable for
/// evaluation: powers become named operations where possible, and `Plus`
/// and `Times` become chains of binary `Add` and `Mul`.
pub struct PostTransform;

impl VisitMut for PostTransform {
    /// Rewrites the expression. The expression must already be flattened;
    /// an unflattened expression is left unchanged.
    fn visit_expr_mut(&mut self, e: &mut Expr) {
        let mut tmp = Expr::uninit();
        core::mem::swap(e, &mut tmp);
        if flattened_check(&tmp) {
            *e = post_transform_expr(tmp);
        } else {
            *e = tmp;
        }
    }
}

/// Checks executably that the expression is flattened.
fn flattened_check(e: &Expr) -> (r: bool)
    ensures
        r == flattened(*e),
    decreases e.size(), 0nat,
{
    match &e.kind {
        ExprKind::Constant(_) => true,
        ExprKind::Var(_) => true,
        ExprKind::Unary(_, x) => flattened_check(x),
        ExprKind::Binary(_, x, y) => flattened_check(x) && flattened_check(y),
        ExprKind::Nary(op, xs) => xs.len() >= 2 && seq_flattened_under_check(xs, *op),
        ExprKind::Pown(x, _) => flattened_check(x),
        ExprKind::Rootn(x, _) => flattened_check(x),
        ExprKind::List(xs) => seq_flattened_check(xs),
        ExprKind::Uninit => true,
    }
}

/// Checks executably that every element is flattened.
fn seq_flattened_check(xs: &Vec<Expr>) -> (r: bool)
    ensures
        r == seq_flattened(xs@),
    decreases seq_size(xs@), xs@.len() + 1nat,
{
    proof {
        assert(xs@.skip(0) =~= xs@);
    }
    seq_flattened_check_from(xs, 0)
}

/// Checks elements `xs[i..]`.
fn seq_flattened_check_from(xs: &Vec<Expr>, i: usize) -> (r: bool)
    requires
        i <= xs@.len(),
    ensures
        r == seq_flattened(xs@.skip(i as int)),
    decreases seq_size(xs@.skip(i as int)), xs@.len() - i,
{
    if i == xs.len() {
        proof {
            assert(xs@.skip(i as int).len() == 0);
        }
        return true;
    }
    proof {
        assert(xs@.skip(i as int)[0] == xs@[i as int]);
        lemma_seq_size_elem(xs@.skip(i as int), 0);
        lemma_seq_size_skip(xs@.skip(i as int));
        assert(xs@.skip(i as int).skip(1) =~= xs@.skip(i as int + 1));
    }
    flattened_check(&xs[i]) && seq_flattened_check_from(xs, i + 1)
}

/// Checks elements `xs[i..]` under an operation.
fn seq_flattened_under_check(xs: &Vec<Expr>, op: NaryOp) -> (r: bool)
    ensures
        r == seq_flattened_under(xs@, op),
    decreases seq_size(xs@), xs@.len() + 1nat,
{
    proof {
        assert(xs@.skip(0) =~= xs@);
    }
    seq_flattened_under_check_from(xs, op, 0)
}

/// Checks elements `xs[i..]` under an operation.
fn seq_flattened_under_check_from(xs: &Vec<Expr>, op: NaryOp, i: usize) -> (r: bool)
    requires
        i <= xs@.len(),
    ensures
        r == seq_flattened_under(xs@.skip(i as int), op),
    decreases seq_size(xs@.skip(i as int)), xs@.len() - i,
{
    if i == xs.len() {
        proof {
            assert(xs@.skip(i as int).len() == 0);
        }
        return true;
    }
    proof {
        assert(xs@.skip(i as int)[0] == xs@[i as int]);
        lemma_seq_size_elem(xs@.skip(i as int), 0);
        lemma_seq_size_skip(xs@.skip(i as int));
        assert(xs@.skip(i as int).skip(1) =~= xs@.skip(i as int + 1));
    }
    let same = match &xs[i].kind {
        ExprKind::Nary(o, _) => matches!((*o, op), (NaryOp::Plus, NaryOp::Plus) | (
            NaryOp::Times,
            NaryOp::Times,
        )),
        _ => false,
    };
    flattened_check(&xs[i]) && !same && seq_flattened_under_check_from(xs, op, i + 1)
}

/// Rewrites the flattened expression bottom-up so that no n-ary node
/// remains: `Plus` and `Times` become chains of binary `Add` and `Mul`, and
/// constant powers become named power operations.
pub fn post_transform_expr(e: Expr) -> (r: Expr)
    requires
        flattened(e),
    ensures
        no_nary(r),
    decreases e.size(), 0nat,
{
    let ghost e0 = e;
    match e.kind {
        ExprKind::Constant(x) => Expr::constant(x),
        ExprKind::Var(s) => Expr::var(s),
        ExprKind::Unary(op, x) => {
            proof {
                assert(e0.size() > (*x).size());
            }
            let xt = post_transform_expr(*x);
            let r = Expr::unary(op, Box::new(xt));
            proof {
                assert(no_nary(r));
            }
            r
        },
        ExprKind::Binary(op, x, y) => {
            proof {
                assert(e0.size() > (*x).size());
                assert(e0.size() > (*y).size());
            }
            let xt = post_transform_expr(*x);
            let yt = post_transform_expr(*y);
            if matches!(op, BinaryOp::Pow) {
                post_apply_pow(xt, yt)
            } else {
                let r = Expr::binary(op, Box::new(xt), Box::new(yt));
                proof {
                    assert(no_nary(r));
                }
                r
            }
        },
        ExprKind::Nary(op, xs) => {
            proof {
                lemma_sfu_implies_sf(xs@, op);
            }
            let ys = post_transform_exprs(xs);
            post_apply_nary(op, ys)
        },
        ExprKind::Pown(x, n) => {
            proof {
                assert(e0.size() > (*x).size());
            }
            let xt = post_transform_expr(*x);
            let r = Expr::pown(Box::new(xt), n);
            proof {
                assert(no_nary(r));
            }
            r
        },
        ExprKind::Rootn(x, n) => {
            proof {
                assert(e0.size() > (*x).size());
            }
            let xt = post_transform_expr(*x);
            let r = Expr::rootn(Box::new(xt), n);
            proof {
                assert(no_nary(r));
            }
            r
        },
        ExprKind::List(xs) => {
            let ys = post_transform_exprs(xs);
            let r = Expr::new_list(ys);
            proof {
                assert(no_nary(r));
            }
            r
        },
        ExprKind::Uninit => Expr::uninit(),
    }
}

/// Rewrites every expression of the vector.
fn post_transform_exprs(xs: Vec<Expr>) -> (r: Vec<Expr>)
    requires
        seq_flattened(xs@),
    ensures
        seq_no_nary(r@),
        r@.len() == xs@.len(),
    decreases seq_size(xs@), xs@.len(),
{
    let mut xs = xs;
    if xs.len() == 0 {
        let r: Vec<Expr> = Vec::new();
        proof {
            assert(seq_no_nary(r@));
        }
        return r;
    }
    proof {
        lemma_seq_size_elem(xs@, 0);
        lemma_seq_size_skip(xs@);
    }
    let x = xs.remove(0);
    let y = post_transform_expr(x);
    let mut rest = post_transform_exprs(xs);
    let ghost r0 = rest@;
    rest.insert(0, y);
    proof {
        assert(rest@[0] == y);
        assert(rest@.skip(1) =~= r0);
        assert(seq_no_nary(rest@));
    }
    rest
}

/// Applies the constant-power rules to rewritten operands.
fn post_apply_pow(x: Expr, y: Expr) -> (r: Expr)
    requires
        no_nary(x),
        no_nary(y),
    ensures
        no_nary(r),
{
    // (Pow 2 y) → (Exp2 y), (Pow 10 y) → (Exp10 y)
    let base_const = as_constant(&x);
    match base_const {
        Some(a) => {
            if a.is_int_value(2) {
                let r = Expr::unary(UnaryOp::Exp2, Box::new(y));
                proof {
                    assert(no_nary(r));
                }
                return r;
            }
            if a.is_int_value(10) {
                let r = Expr::unary(UnaryOp::Exp10, Box::new(y));
                proof {
                    assert(no_nary(r));
                }
                return r;
            }
        },
        None => {},
    }
    let exp_const = as_constant(&y);
    match exp_const {
        Some(a) => {
            let n_fits = -0x8000_0000 <= a.num && a.num <= 0x7fff_ffff;
            let d_fits = 1 <= a.den && a.den <= 0xffff_ffff;
            if n_fits && d_fits {
                let n = a.num as i32;
                let d = a.den as u32;
                let root = if d == 1 {
                    x
                } else if d == 2 {
                    Expr::unary(UnaryOp::Sqrt, Box::new(x))
                } else {
                    Expr::rootn(Box::new(x), d)
                };
                proof {
                    assert(no_nary(root));
                }
                let r = if n == -1 {
                    Expr::unary(UnaryOp::Recip, Box::new(root))
                } else if n == 0 {
                    Expr::unary(UnaryOp::One, Box::new(root))
                } else if n == 1 {
                    root
                } else if n == 2 {
                    Expr::unary(UnaryOp::Sqr, Box::new(root))
                } else {
                    Expr::pown(Box::new(root), n)
                };
                proof {
                    assert(no_nary(r));
                }
                return r;
            }
        },
        None => {},
    }
    let r = Expr::binary(BinaryOp::Pow, Box::new(x), Box::new(y));
    proof {
        assert(no_nary(r));
    }
    r
}

/// Folds a `Plus` or `Times` operand list into a chain of binary nodes; a
/// leading −1 under `Times` becomes a negation.
fn post_apply_nary(op: NaryOp, ys: Vec<Expr>) -> (r: Expr)
    requires
        seq_no_nary(ys@),
        ys@.len() >= 2,
    ensures
        no_nary(r),
{
    let mut ys = ys;
    let ghost ys0 = ys@;
    let first = ys.remove(0);
    proof {
        assert(ys@ =~= ys0.skip(1));
        assert(no_nary(first));
        assert(seq_no_nary(ys0.skip(1)));
        assert(ys0.skip(1)[0] == ys0[1]);
    }
    let second = ys.remove(0);
    proof {
        assert(ys@ =~= ys0.skip(1).skip(1));
        assert(no_nary(second));
        assert(seq_no_nary(ys@));
    }
    let bin_op = if matches!(op, NaryOp::Plus) {
        BinaryOp::Add
    } else {
        BinaryOp::Mul
    };
    let first_is_minus_one = match &first.kind {
        ExprKind::Constant(a) => a.is_int_value(-1),
        _ => false,
    };
    let mut acc = if matches!(op, NaryOp::Times) && first_is_minus_one {
        // (Times -1 x …) → (Neg x) …
        Expr::unary(UnaryOp::Neg, Box::new(second))
    } else {
        Expr::binary(bin_op, Box::new(first), Box::new(second))
    };
    proof {
        assert(no_nary(acc));
    }
    while ys.len() > 0
        invariant
            no_nary(acc),
            seq_no_nary(ys@),
            bin_op == BinaryOp::Add || bin_op == BinaryOp::Mul,
        decreases ys@.len(),
    {
        let x = ys.remove(0);
        proof {
            assert(no_nary(x));
        }
        acc = Expr::binary(bin_op, Box::new(acc), Box::new(x));
        proof {
            assert(no_nary(acc));
        }
    }
    acc
}

/// The decimal digits of `n`, most significant first.
fn decimal_string(n: usize) -> (r: String)
{
    if n == 0 {
        return String::from_str("0");
    }
    let mut digits: Vec<u8> = Vec::new();
    let mut m = n;
    while m > 0
        invariant
            digits@.len() <= 20,
            m <= n,
        decreases m,
    {
        if digits.len() >= 20 {
            break ;
        }
        digits.push((m % 10) as u8);
        m = m / 10;
    }
    let mut out = String::new();
    let mut i: usize = digits.len();
    while i > 0
        invariant
            i <= digits@.len(),
        decreases i,
    {
        i = i - 1;
        out.append(digit_str(digits[i]));
    }
    out
}

/// One decimal digit as a string slice.
fn digit_str(d: u8) -> (r: &'static str)
{
    if d == 0 {
        "0"
    } else if d == 1 {
        "1"
    } else if d == 2 {
        "2"
    } else if d == 3 {
        "3"
    } else if d == 4 {
        "4"
    } else if d == 5 {
        "5"
    } else if d == 6 {
        "6"
    } else if d == 7 {
        "7"
    } else if d == 8 {
        "8"
    } else {
        "9"
    }
}

/// Parses a small decimal index; `None` for anything else.
fn parse_index(s: &String) -> (r: Option<usize>)
{
    let t = s.as_str();
    let n = t.unicode_len();
    if n == 0 || n > 6 {
        return None;
    }
    let mut v: usize = 0;
    let mut i: usize = 0;
    while i < n
        invariant
            n <= 6,
            i <= n,
            n == t@.len(),
            v < 1000000,
        decreases n - i,
    {
        let c = t.get_char(i);
        let d = c as u32;
        if d < 48 || d > 57 {
            return None;
        }
        v = v * 10 + (d - 48) as usize;
        if v >= 1000000 {
            return None;
        }
        i = i + 1;
    }
    Some(v)
}

/// Replaces the variables whose names equal `params[i]` with variables
/// named `i`.
pub struct Parametrize {
    params: Vec<String>,
}

impl Parametrize {
    /// The parameter names, for use in specifications.
    pub closed spec fn spec_params(&self) -> Seq<String> {
        self.params@
    }

    /// Creates the visitor for the given parameter names.
    pub fn new(params: Vec<String>) -> (r: Self)
        ensures
            r.spec_params() == params@,
    {
        Self { params }
    }
}

impl VisitMut for Parametrize {
    fn visit_expr_mut(&mut self, e: &mut Expr) {
        let mut tmp = Expr::uninit();
        core::mem::swap(e, &mut tmp);
        *e = parametrize_expr(tmp, &self.params);
    }
}

/// Renames parameter variables to their positions.
fn parametrize_expr(e: Expr, params: &Vec<String>) -> (r: Expr)
    decreases e.size(), 0nat,
{
    let ghost e0 = e;
    match e.kind {
        ExprKind::Var(name) => {
            let mut i: usize = 0;
            while i < params.len()
                invariant
                    i <= params@.len(),
                decreases params@.len() - i,
            {
                if (*(&params[i])) == name {
                    return Expr::var(decimal_string(i));
                }
                i = i + 1;
            }
            Expr::var(name)
        },
        ExprKind::Constant(x) => Expr::constant(x),
        ExprKind::Unary(op, x) => {
            proof {
                assert(e0.size() > (*x).size());
            }
            Expr::unary(op, Box::new(parametrize_expr(*x, params)))
        },
        ExprKind::Binary(op, x, y) => {
            proof {
                assert(e0.size() > (*x).size());
                assert(e0.size() > (*y).size());
            }
            Expr::binary(
                op,
                Box::new(parametrize_expr(*x, params)),
                Box::new(parametrize_expr(*y, params)),
            )
        },
        ExprKind::Nary(op, xs) => Expr::nary(op, parametrize_exprs(xs, params)),
        ExprKind::Pown(x, n) => {
            proof {
                assert(e0.size() > (*x).size());
            }
            Expr::pown(Box::new(parametrize_expr(*x, params)), n)
        },
        ExprKind::Rootn(x, n) => {
            proof {
                assert(e0.size() > (*x).size());
            }
            Expr::rootn(Box::new(parametrize_expr(*x, params)), n)
        },
        ExprKind::List(xs) => Expr::new_list(parametrize_exprs(xs, params)),
        ExprKind::Uninit => Expr::uninit(),
    }
}

/// Renames inside every expression of the vector.
fn parametrize_exprs(xs: Vec<Expr>, params: &Vec<String>) -> (r: Vec<Expr>)
    decreases seq_size(xs@), xs@.len(),
{
    let mut xs = xs;
    if xs.len() == 0 {
        let r: Vec<Expr> = Vec::new();
        return r;
    }
    proof {
        lemma_seq_size_elem(xs@, 0);
        lemma_seq_size_skip(xs@);
    }
    let x = xs.remove(0);
    let y = parametrize_expr(x, params);
    let mut rest = parametrize_exprs(xs, params);
    rest.insert(0, y);
    rest
}

/// Replaces the variables named `0`, `1`, … with copies of the argument
/// expressions at those positions.
pub struct Substitute {
    args: Vec<Expr>,
}

impl Substitute {
    /// The argument expressions, for use in specifications.
    pub closed spec fn spec_args(&self) -> Seq<Expr> {
        self.args@
    }

    /// Creates the visitor for the given arguments.
    pub fn new(args: Vec<Expr>) -> (r: Self)
        ensures
            r.spec_args() == args@,
    {
        Self { args }
    }
}

impl VisitMut for Substitute {
    fn visit_expr_mut(&mut self, e: &mut Expr) {
        let mut tmp = Expr::uninit();
        core::mem::swap(e, &mut tmp);
        *e = substitute_expr(tmp, &self.args);
    }
}

/// Substitutes the arguments for position variables.
fn substitute_expr(e: Expr, args: &Vec<Expr>) -> (r: Expr)
    decreases e.size(), 0nat,
{
    let ghost e0 = e;
    match e.kind {
        ExprKind::Var(name) => {
            match parse_index(&name) {
                Some(i) => {
                    if i < args.len() {
                        clone_expr(&args[i])
                    } else {
                        Expr::var(name)
                    }
                },
                None => Expr::var(name),
            }
        },
        ExprKind::Constant(x) => Expr::constant(x),
        ExprKind::Unary(op, x) => {
            proof {
                assert(e0.size() > (*x).size());
            }
            Expr::unary(op, Box::new(substitute_expr(*x, args)))
        },
        ExprKind::Binary(op, x, y) => {
            proof {
                assert(e0.size() > (*x).size());
                assert(e0.size() > (*y).size());
            }
            Expr::binary(
                op,
                Box::new(substitute_expr(*x, args)),
                Box::new(substitute_expr(*y, args)),
            )
        },
        ExprKind::Nary(op, xs) => Expr::nary(op, substitute_exprs(xs, args)),
        ExprKind::Pown(x, n) => {
            proof {
                assert(e0.size() > (*x).size());
            }
            Expr::pown(Box::new(substitute_expr(*x, args)), n)
        },
        ExprKind::Rootn(x, n) => {
            proof {
                assert(e0.size() > (*x).size());
            }
            Expr::rootn(Box::new(substitute_expr(*x, args)), n)
        },
        ExprKind::List(xs) => Expr::new_list(substitute_exprs(xs, args)),
        ExprKind::Uninit => Expr::uninit(),
    }
}

/// Substitutes inside every expression of the vector.
fn substitute_exprs(xs: Vec<Expr>, args: &Vec<Expr>) -> (r: Vec<Expr>)
    decreases seq_size(xs@), xs@.len(),
{
    let mut xs = xs;
    if xs.len() == 0 {
        let r: Vec<Expr> = Vec::new();
        return r;
    }
    proof {
        lemma_seq_size_elem(xs@, 0);
        lemma_seq_size_skip(xs@);
    }
    let x = xs.remove(0);
    let y = substitute_expr(x, args);
    let mut rest = substitute_exprs(xs, args);
    rest.insert(0, y);
    rest
}

/// The greatest common divisor of two positive periods.
fn gcd_u64(a: u64, b: u64) -> (r: u64)
    decreases b,
{
    if b == 0 {
        a
    } else {
        gcd_u64(b, a % b)
    }
}

/// The least common multiple of two positive periods, or `None` when it
/// leaves 64-bit range.
fn lcm_u64(a: u64, b: u64) -> (r: Option<u64>)
    requires
        a > 0,
        b > 0,
{
    let g = gcd_u64(a, b);
    if g == 0 {
        return None;
    }
    let q = a / g;
    if q == 0 {
        return None;
    }
    if b > u64::MAX / q {
        return None;
    }
    proof {
        let m = u64::MAX as int / q as int;
        vstd::arithmetic::div_mod::lemma_fundamental_div_mod(u64::MAX as int, q as int);
        assert(q * b <= q * m) by (nonlinear_arith)
            requires
                q > 0,
                b <= m,
        ;
        assert(q * m <= u64::MAX as int) by (nonlinear_arith)
            requires
                u64::MAX as int == q * m + (u64::MAX as int % q as int),
                u64::MAX as int % q as int >= 0,
        ;
    }
    Some(q * b)
}

/// Combines two known periods: zero is the identity, otherwise the least
/// common multiple.
fn combine_periods(a: Option<u64>, b: Option<u64>) -> (r: Option<u64>)
    ensures
        a is None || b is None ==> r is None,
        a == Some(0u64) ==> r == b,
        b == Some(0u64) && a is Some ==> r == a,
{
    match (a, b) {
        (Some(x), Some(y)) => {
            if x == 0 {
                Some(y)
            } else if y == 0 {
                Some(x)
            } else {
                lcm_u64(x, y)
            }
        },
        _ => None,
    }
}

/// The variable name denotes the polar angle: the single character θ or
/// the word spelling it out.
pub open spec fn spec_is_theta(s: Seq<char>) -> bool {
    s == seq!['θ'] || s == seq!['t', 'h', 'e', 't', 'a']
}

/// The variable is the polar angle.
fn is_theta(name: &String) -> (r: bool)
    ensures
        r == spec_is_theta(name@),
{
    let t = name.as_str();
    let n = t.unicode_len();
    proof {
        assert(seq!['θ'].len() == 1);
        assert(seq!['t', 'h', 'e', 't', 'a'].len() == 5);
    }
    if n == 1 {
        let c0 = t.get_char(0);
        let hit = c0 == 'θ';
        proof {
            if hit {
                assert(name@ =~= seq!['θ']);
            } else {
                assert(seq!['θ'][0] == 'θ');
            }
        }
        return hit;
    }
    if n != 5 {
        return false;
    }
    let c0 = t.get_char(0);
    let c1 = t.get_char(1);
    let c2 = t.get_char(2);
    let c3 = t.get_char(3);
    let c4 = t.get_char(4);
    let hit = c0 == 't' && c1 == 'h' && c2 == 'e' && c3 == 't' && c4 == 'a';
    proof {
        let w = seq!['t', 'h', 'e', 't', 'a'];
        if hit {
            assert(name@ =~= w);
        } else {
            assert(w[0] == 't' && w[1] == 'h' && w[2] == 'e' && w[3] == 't' && w[4] == 'a');
        }
    }
    hit
}

/// Computes the period of every node along the polar branch index:
/// constants and variables other than θ have period zero, `sin`, `cos` and
/// `tan` of `a·θ + b` with rational `a = p/q` have period `q`, and
/// combinations take least common multiples with zero as the identity.
pub struct UpdatePolarPeriod;

impl VisitMut for UpdatePolarPeriod {
    fn visit_expr_mut(&mut self, e: &mut Expr) {
        let mut tmp = Expr::uninit();
        core::mem::swap(e, &mut tmp);
        *e = update_polar_period_expr(tmp);
    }
}

/// Fills in `polar_period` bottom-up: a constant has period 0, a variable
/// has period 0 unless it is the polar angle, and composite nodes combine
/// their children's periods by the least common multiple with 0 as the
/// identity. A period that cannot be represented in 64 bits is left
/// unknown, which the engine treats conservatively.
pub fn update_polar_period_expr(e: Expr) -> (r: Expr)
    ensures
        e.kind matches ExprKind::Constant(c) ==> r.polar_period == Some(0u64),
        e.kind matches ExprKind::Var(name) ==> r.polar_period == (if spec_is_theta(name@) {
            Option::<u64>::None
        } else {
            Some(0u64)
        }),
        e.kind matches ExprKind::Var(name) ==> r.kind == e.kind,
        spec_trig_of_theta(e) ==> r.polar_period == Some(1u64),
    decreases e.size(), 0nat,
{
    let ghost e0 = e;
    match e.kind {
        ExprKind::Constant(x) => {
            let mut r = Expr::constant(x);
            r.polar_period = Some(0);
            r
        },
        ExprKind::Var(name) => {
            let period: Option<u64> = if is_theta(&name) {
                None
            } else {
                Some(0)
            };
            let mut r = Expr::var(name);
            r.polar_period = period;
            r
        },
        ExprKind::Unary(op, x) => {
            proof {
                assert(e0.size() > (*x).size());
            }
            let xt = update_polar_period_expr(*x);
            let trig = matches!(op, UnaryOp::Sin | UnaryOp::Cos | UnaryOp::Tan);
            let mut period = xt.polar_period;
            if period.is_none() && trig {
                period = theta_argument_period(&xt);
            }
            let mut r = Expr::unary(op, Box::new(xt));
            r.polar_period = period;
            r
        },
        ExprKind::Binary(op, x, y) => {
            proof {
                assert(e0.size() > (*x).size());
                assert(e0.size() > (*y).size());
            }
            let xt = update_polar_period_expr(*x);
            let yt = update_polar_period_expr(*y);
            let period = combine_periods(xt.polar_period, yt.polar_period);
            let mut r = Expr::binary(op, Box::new(xt), Box::new(yt));
            r.polar_period = period;
            r
        },
        ExprKind::Nary(op, xs) => {
            let (ys, period) = update_polar_period_exprs(xs);
            let mut r = Expr::nary(op, ys);
            r.polar_period = period;
            r
        },
        ExprKind::Pown(x, n) => {
            proof {
                assert(e0.size() > (*x).size());
            }
            let xt = update_polar_period_expr(*x);
            let period = xt.polar_period;
            let mut r = Expr::pown(Box::new(xt), n);
            r.polar_period = period;
            r
        },
        ExprKind::Rootn(x, n) => {
            proof {
                assert(e0.size() > (*x).size());
            }
            let xt = update_polar_period_expr(*x);
            let period = xt.polar_period;
            let mut r = Expr::rootn(Box::new(xt), n);
            r.polar_period = period;
            r
        },
        ExprKind::List(xs) => {
            let (ys, period) = update_polar_period_exprs(xs);
            let mut r = Expr::new_list(ys);
            r.polar_period = period;
            r
        },
        ExprKind::Uninit => Expr::uninit(),
    }
}

/// The expression is a trigonometric function applied directly to the
/// polar angle, whose period is 1.
pub open spec fn spec_trig_of_theta(e: Expr) -> bool {
    match e.kind {
        ExprKind::Unary(op, x) => (op == UnaryOp::Sin || op == UnaryOp::Cos || op == UnaryOp::Tan)
            && match x.kind {
            ExprKind::Var(name) => spec_is_theta(name@),
            _ => false,
        },
        _ => false,
    }
}

/// The expression is a two-term product of a constant and the polar angle.
pub open spec fn spec_is_const_times_theta(x: Expr) -> bool {
    match x.kind {
        ExprKind::Nary(op, xs) => op == NaryOp::Times && xs@.len() == 2 && (
        xs@[0].kind matches ExprKind::Constant(_)) && match xs@[1].kind {
            ExprKind::Var(name) => spec_is_theta(name@),
            _ => false,
        },
        _ => false,
    }
}

/// The denominator of the constant coefficient of such a product.
pub open spec fn spec_theta_coeff_den(x: Expr) -> int {
    match x.kind {
        ExprKind::Nary(_, xs) => match xs@[0].kind {
            ExprKind::Constant(a) => a.den as int,
            _ => 0,
        },
        _ => 0,
    }
}

/// The period of a trigonometric function's argument of the shape `θ`,
/// `a θ`, `b + θ` or `b + a θ`: the denominator of `a`.
fn theta_argument_period(x: &Expr) -> (r: Option<u64>)
    ensures
        x.kind matches ExprKind::Var(name) ==> r == (if spec_is_theta(name@) {
            Some(1u64)
        } else {
            Option::<u64>::None
        }),
        spec_is_const_times_theta(*x) ==> r == (if spec_theta_coeff_den(*x) >= 1 {
            Some(spec_theta_coeff_den(*x) as u64)
        } else {
            Option::<u64>::None
        }),
    decreases x.size(),
{
    match &x.kind {
        ExprKind::Var(name) => {
            if is_theta(name) {
                Some(1)
            } else {
                None
            }
        },
        ExprKind::Nary(NaryOp::Times, xs) => {
            // a θ
            if xs.len() == 2 {
                match (&xs[0].kind, &xs[1].kind) {
                    (ExprKind::Constant(a), ExprKind::Var(name)) => {
                        if is_theta(name) && a.den >= 1 {
                            Some(a.den as u64)
                        } else {
                            None
                        }
                    },
                    _ => None,
                }
            } else {
                None
            }
        },
        ExprKind::Nary(NaryOp::Plus, xs) => {
            // b + θ or b + a θ
            if xs.len() == 2 {
                match &xs[0].kind {
                    ExprKind::Constant(_) => {
                        match &xs[1].kind {
                            ExprKind::Var(name) => {
                                if is_theta(name) {
                                    Some(1)
                                } else {
                                    None
                                }
                            },
                            _ => {
                                proof {
                                    lemma_seq_size_elem(xs@, 1);
                                }
                                theta_argument_period(&xs[1])
                            },
                        }
                    },
                    _ => None,
                }
            } else {
                None
            }
        },
        _ => None,
    }
}

/// Updates the periods of a vector of expressions and combines them.
fn update_polar_period_exprs(xs: Vec<Expr>) -> (r: (Vec<Expr>, Option<u64>))
    decreases seq_size(xs@), xs@.len(),
{
    let mut xs = xs;
    if xs.len() == 0 {
        let r: Vec<Expr> = Vec::new();
        return (r, Some(0));
    }
    proof {
        lemma_seq_size_elem(xs@, 0);
        lemma_seq_size_skip(xs@);
    }
    let x = xs.remove(0);
    let y = update_polar_period_expr(x);
    let yp = y.polar_period;
    let (mut rest, rp) = update_polar_period_exprs(xs);
    rest.insert(0, y);
    (rest, combine_periods(yp, rp))
}

/// Rebuilds subtractions and divisions out of normalized sums and products,
/// which yields tighter interval evaluation.
pub struct SubDivTransform;

impl VisitMut for SubDivTransform {
    fn visit_expr_mut(&mut self, e: &mut Expr) {
        let mut tmp = Expr::uninit();
        core::mem::swap(e, &mut tmp);
        *e = sub_div_transform_expr(tmp);
    }
}

/// Splits `Plus` operands into positive and negated parts, and `Times`
/// operands into numerator and denominator parts, rebuilding `Sub`, `Neg`,
/// `Div` and `Recip` nodes.
fn sub_div_transform_expr(e: Expr) -> (r: Expr)
    decreases e.size(), 0nat,
{
    let ghost e0 = e;
    match e.kind {
        ExprKind::Constant(x) => Expr::constant(x),
        ExprKind::Var(s) => Expr::var(s),
        ExprKind::Unary(op, x) => {
            proof {
                assert(e0.size() > (*x).size());
            }
            Expr::unary(op, Box::new(sub_div_transform_expr(*x)))
        },
        ExprKind::Binary(op, x, y) => {
            proof {
                assert(e0.size() > (*x).size());
                assert(e0.size() > (*y).size());
            }
            Expr::binary(
                op,
                Box::new(sub_div_transform_expr(*x)),
                Box::new(sub_div_transform_expr(*y)),
            )
        },
        ExprKind::Nary(op, xs) => {
            let ys = sub_div_transform_exprs(xs);
            if matches!(op, NaryOp::Plus) {
                sub_div_apply_plus(ys)
            } else {
                sub_div_apply_times(ys)
            }
        },
        ExprKind::Pown(x, n) => {
            proof {
                assert(e0.size() > (*x).size());
            }
            Expr::pown(Box::new(sub_div_transform_expr(*x)), n)
        },
        ExprKind::Rootn(x, n) => {
            proof {
                assert(e0.size() > (*x).size());
            }
            Expr::rootn(Box::new(sub_div_transform_expr(*x)), n)
        },
        ExprKind::List(xs) => Expr::new_list(sub_div_transform_exprs(xs)),
        ExprKind::Uninit => Expr::uninit(),
    }
}

/// Transforms every expression of the vector.
fn sub_div_transform_exprs(xs: Vec<Expr>) -> (r: Vec<Expr>)
    decreases seq_size(xs@), xs@.len(),
{
    let mut xs = xs;
    if xs.len() == 0 {
        let r: Vec<Expr> = Vec::new();
        return r;
    }
    proof {
        lemma_seq_size_elem(xs@, 0);
        lemma_seq_size_skip(xs@);
    }
    let x = xs.remove(0);
    let y = sub_div_transform_expr(x);
    let mut rest = sub_div_transform_exprs(xs);
    rest.insert(0, y);
    rest
}

/// `(Plus x… (Times -1 y)…) → (Sub (Plus x…) (Plus y…))`.
fn sub_div_apply_plus(ys: Vec<Expr>) -> (r: Expr)
{
    let mut ys = ys;
    let mut lhs: Vec<Expr> = Vec::new();
    let mut rhs: Vec<Expr> = Vec::new();
    while ys.len() > 0
        decreases ys@.len(),
    {
        let x = ys.remove(0);
        let negated = match &x.kind {
            ExprKind::Nary(NaryOp::Times, fs) => {
                fs.len() >= 1 && match &fs[0].kind {
                    ExprKind::Constant(a) => a.is_int_value(-1),
                    _ => false,
                }
            },
            _ => false,
        };
        if negated {
            match x.kind {
                ExprKind::Nary(_, mut fs) => {
                    let _ = fs.remove(0);
                    rhs.push(Expr::nary(NaryOp::Times, fs));
                },
                _ => {},
            }
        } else {
            lhs.push(x);
        }
    }
    if lhs.len() == 0 {
        Expr::unary(UnaryOp::Neg, Box::new(Expr::nary(NaryOp::Plus, rhs)))
    } else if rhs.len() == 0 {
        Expr::nary(NaryOp::Plus, lhs)
    } else {
        Expr::binary(
            BinaryOp::Sub,
            Box::new(Expr::nary(NaryOp::Plus, lhs)),
            Box::new(Expr::nary(NaryOp::Plus, rhs)),
        )
    }
}

/// `(Times x… (Pow y -n)…) → (Div (Times x…) (Times y^n…))`.
fn sub_div_apply_times(ys: Vec<Expr>) -> (r: Expr)
{
    let mut ys = ys;
    let mut num: Vec<Expr> = Vec::new();
    let mut den: Vec<Expr> = Vec::new();
    while ys.len() > 0
        decreases ys@.len(),
    {
        let x = ys.remove(0);
        let neg_exp: Option<Rational> = match &x.kind {
            ExprKind::Binary(BinaryOp::Pow, _, ex) => {
                match &ex.kind {
                    ExprKind::Constant(a) => {
                        if a.wf_check() && a.num < 0 {
                            a.neg()
                        } else {
                            None
                        }
                    },
                    _ => None,
                }
            },
            _ => None,
        };
        match neg_exp {
            Some(p) => {
                match x.kind {
                    ExprKind::Binary(_, base, _) => {
                        den.push(Expr::binary(
                            BinaryOp::Pow,
                            base,
                            Box::new(Expr::constant(p)),
                        ));
                    },
                    _ => {},
                }
            },
            None => {
                num.push(x);
            },
        }
    }
    if num.len() == 0 {
        Expr::unary(UnaryOp::Recip, Box::new(Expr::nary(NaryOp::Times, den)))
    } else if den.len() == 0 {
        Expr::nary(NaryOp::Times, num)
    } else {
        Expr::binary(
            BinaryOp::Div,
            Box::new(Expr::nary(NaryOp::Times, num)),
            Box::new(Expr::nary(NaryOp::Times, den)),
        )
    }
}

/// Recomputes the free-variable sets and value types of every node.
pub struct UpdateMetadata;

impl VisitMut for UpdateMetadata {
    fn visit_expr_mut(&mut self, e: &mut Expr) {
        let mut tmp = Expr::uninit();
        core::mem::swap(e, &mut tmp);
        *e = update_metadata_expr(tmp);
    }
}

/// Whether an operation yields a Boolean formula.
fn op_is_boolean(op: BinaryOp) -> (r: bool)
{
    matches!(
        op,
        BinaryOp::And | BinaryOp::Or | BinaryOp::Eq | BinaryOp::Ge | BinaryOp::Gt | BinaryOp::Le
            | BinaryOp::Lt | BinaryOp::Neq | BinaryOp::Nge | BinaryOp::Ngt | BinaryOp::Nle
            | BinaryOp::Nlt,
    )
}

/// Fills in `vars` and `ty` bottom-up.
pub fn update_metadata_expr(e: Expr) -> (r: Expr)
    decreases e.size(), 0nat,
{
    let ghost e0 = e;
    match e.kind {
        ExprKind::Constant(x) => {
            let mut r = Expr::constant(x);
            r.vars = VarSet { bits: 0 };
            r.ty = ValueType::Scalar;
            r
        },
        ExprKind::Var(name) => {
            let bits: u8 = if name_is(&name, 'x') {
                crate::ast::VAR_X
            } else if name_is(&name, 'y') {
                crate::ast::VAR_Y
            } else {
                crate::ast::VAR_OTHER
            };
            let mut r = Expr::var(name);
            r.vars = VarSet { bits };
            r.ty = ValueType::Scalar;
            r
        },
        ExprKind::Unary(op, x) => {
            proof {
                assert(e0.size() > (*x).size());
            }
            let xt = update_metadata_expr(*x);
            let vars = xt.vars;
            let ty = if matches!(op, UnaryOp::Not) {
                ValueType::Boolean
            } else {
                ValueType::Scalar
            };
            let mut r = Expr::unary(op, Box::new(xt));
            r.vars = vars;
            r.ty = ty;
            r
        },
        ExprKind::Binary(op, x, y) => {
            proof {
                assert(e0.size() > (*x).size());
                assert(e0.size() > (*y).size());
            }
            let xt = update_metadata_expr(*x);
            let yt = update_metadata_expr(*y);
            let bits = xt.vars.bits | yt.vars.bits;
            let ty = if op_is_boolean(op) {
                ValueType::Boolean
            } else {
                ValueType::Scalar
            };
            let mut r = Expr::binary(op, Box::new(xt), Box::new(yt));
            r.vars = VarSet { bits };
            r.ty = ty;
            r
        },
        ExprKind::Nary(op, xs) => {
            let (ys, bits) = update_metadata_exprs(xs);
            let mut r = Expr::nary(op, ys);
            r.vars = VarSet { bits };
            r.ty = ValueType::Scalar;
            r
        },
        ExprKind::Pown(x, n) => {
            proof {
                assert(e0.size() > (*x).size());
            }
            let xt = update_metadata_expr(*x);
            let vars = xt.vars;
            let mut r = Expr::pown(Box::new(xt), n);
            r.vars = vars;
            r.ty = ValueType::Scalar;
            r
        },
        ExprKind::Rootn(x, n) => {
            proof {
                assert(e0.size() > (*x).size());
            }
            let xt = update_metadata_expr(*x);
            let vars = xt.vars;
            let mut r = Expr::rootn(Box::new(xt), n);
            r.vars = vars;
            r.ty = ValueType::Scalar;
            r
        },
        ExprKind::List(xs) => {
            let (ys, bits) = update_metadata_exprs(xs);
            let mut r = Expr::new_list(ys);
            r.vars = VarSet { bits };
            r.ty = ValueType::Vector;
            r
        },
        ExprKind::Uninit => Expr::uninit(),
    }
}

/// The variable has the given single-character name.
fn name_is(name: &String, c: char) -> (r: bool)
{
    let t = name.as_str();
    t.unicode_len() == 1 && t.get_char(0) == c
}

/// Updates metadata inside every expression of the vector and unions the
/// variable sets.
fn update_metadata_exprs(xs: Vec<Expr>) -> (r: (Vec<Expr>, u8))
    decreases seq_size(xs@), xs@.len(),
{
    let mut xs = xs;
    if xs.len() == 0 {
        let r: Vec<Expr> = Vec::new();
        return (r, 0);
    }
    proof {
        lemma_seq_size_elem(xs@, 0);
        lemma_seq_size_skip(xs@);
    }
    let x = xs.remove(0);
    let y = update_metadata_expr(x);
    let yb = y.vars.bits;
    let (mut rest, rb) = update_metadata_exprs(xs);
    rest.insert(0, y);
    (rest, yb | rb)
}

/// Compares two string slices character by character.
fn str_equal(a: &str, b: &str) -> (r: bool)
{
    let n = a.unicode_len();
    if n != b.unicode_len() {
        return false;
    }
    let mut i: usize = 0;
    while i < n
        invariant
            i <= n,
            n == a@.len(),
            n == b@.len(),
        decreases n - i,
    {
        if a.get_char(i) != b.get_char(i) {
            return false;
        }
        i = i + 1;
    }
    true
}

/// Assigns identifiers to structurally unique subexpressions in a
/// bottom-up order, so that every child's identifier precedes its
/// parents', and reserves branch-cut sites for expressions that are
/// evaluated more than once.
pub struct AssignId {
    next_id: ExprId,
    next_site: u8,
    site_map: Vec<(ExprId, u8)>,
    exprs: Vec<Expr>,
}

impl AssignId {
    /// The unique expressions seen so far, in identifier order, for use in
    /// specifications.
    pub closed spec fn spec_exprs(&self) -> Seq<Expr> {
        self.exprs@
    }

    /// Creates the visitor with no identifiers assigned.
    pub fn new() -> (r: Self)
        ensures
            r.spec_exprs().len() == 0,
    {
        AssignId { next_id: 0, next_site: 0, site_map: Vec::new(), exprs: Vec::new() }
    }

    /// Returns `true` if evaluating the expression may need a branch cut.
    fn term_can_perform_cut(kind: &ExprKind) -> (r: bool)
    {
        match kind {
            ExprKind::Unary(op, _) => matches!(
                op,
                UnaryOp::Ceil | UnaryOp::Digamma | UnaryOp::Floor | UnaryOp::Gamma
                    | UnaryOp::Recip | UnaryOp::Tan,
            ),
            ExprKind::Binary(op, _, _) => matches!(
                op,
                BinaryOp::Atan2 | BinaryOp::Div | BinaryOp::Gcd | BinaryOp::Lcm | BinaryOp::Log
                    | BinaryOp::Mod | BinaryOp::Pow | BinaryOp::RankedMax | BinaryOp::RankedMin,
            ),
            ExprKind::Pown(_, _) => true,
            _ => false,
        }
    }

    /// Assigns identifiers within the expression, reusing the identifier of
    /// any structurally equal expression seen before.
    fn assign(&mut self, e: Expr) -> (r: Expr)
        decreases e.size(), 0nat,
    {
        let ghost e0 = e;
        let rebuilt = match e.kind {
            ExprKind::Constant(x) => Expr::constant(x),
            ExprKind::Var(name) => Expr::var(name),
            ExprKind::Unary(op, x) => {
                proof {
                    assert(e0.size() > (*x).size());
                }
                let xt = self.assign(*x);
                Expr::unary(op, Box::new(xt))
            },
            ExprKind::Binary(op, x, y) => {
                proof {
                    assert(e0.size() > (*x).size());
                    assert(e0.size() > (*y).size());
                }
                let xt = self.assign(*x);
                let yt = self.assign(*y);
                Expr::binary(op, Box::new(xt), Box::new(yt))
            },
            ExprKind::Nary(op, xs) => Expr::nary(op, self.assign_all(xs)),
            ExprKind::Pown(x, n) => {
                proof {
                    assert(e0.size() > (*x).size());
                }
                let xt = self.assign(*x);
                Expr::pown(Box::new(xt), n)
            },
            ExprKind::Rootn(x, n) => {
                proof {
                    assert(e0.size() > (*x).size());
                }
                let xt = self.assign(*x);
                Expr::rootn(Box::new(xt), n)
            },
            ExprKind::List(xs) => Expr::new_list(self.assign_all(xs)),
            ExprKind::Uninit => Expr::uninit(),
        };
        let mut rebuilt = rebuilt;
        let mut found: Option<ExprId> = None;
        let mut i: usize = 0;
        while i < self.exprs.len()
            invariant
                i <= self.exprs@.len(),
            decreases self.exprs@.len() - i,
        {
            if expr_eq(&self.exprs[i], &rebuilt) {
                found = Some(self.exprs[i].id);
                break ;
            }
            i = i + 1;
        }
        match found {
            Some(id) => {
                rebuilt.id = id;
                if Self::term_can_perform_cut(&rebuilt.kind) && self.next_site <= 31
                    && !self.site_assigned(id) {
                    self.site_map.push((id, self.next_site));
                    self.next_site = self.next_site + 1;
                }
            },
            None => {
                if self.next_id < UNINIT_EXPR_ID {
                    rebuilt.id = self.next_id;
                    self.next_id = self.next_id + 1;
                    self.exprs.push(clone_expr(&rebuilt));
                }
            },
        }
        rebuilt
    }

    /// A site has been reserved for the identifier.
    fn site_assigned(&self, id: ExprId) -> (r: bool)
    {
        let mut i: usize = 0;
        while i < self.site_map.len()
            invariant
                i <= self.site_map@.len(),
            decreases self.site_map@.len() - i,
        {
            if self.site_map[i].0 == id {
                return true;
            }
            i = i + 1;
        }
        false
    }

    /// Assigns identifiers within every expression of the vector.
    fn assign_all(&mut self, xs: Vec<Expr>) -> (r: Vec<Expr>)
        decreases seq_size(xs@), xs@.len(),
    {
        let mut xs = xs;
        if xs.len() == 0 {
            let r: Vec<Expr> = Vec::new();
            return r;
        }
        proof {
            lemma_seq_size_elem(xs@, 0);
            lemma_seq_size_skip(xs@);
        }
        let x = xs.remove(0);
        let y = self.assign(x);
        let mut rest = self.assign_all(xs);
        rest.insert(0, y);
        rest
    }
}

impl VisitMut for AssignId {
    fn visit_expr_mut(&mut self, e: &mut Expr) {
        let mut tmp = Expr::uninit();
        core::mem::swap(e, &mut tmp);
        let r = self.assign(tmp);
        *e = r;
    }
}

/// The kind of a compiled scalar term.
#[derive(Clone, Debug)]
pub enum StaticTermKind {
    /// An exact rational constant.
    Constant(Rational),
    /// The variable x.
    X,
    /// The variable y.
    Y,
    /// The polar branch index n_θ.
    NTheta,
    /// A unary operation on an earlier term.
    Unary(UnaryOp, TermIndex),
    /// A binary operation on earlier terms.
    Binary(BinaryOp, TermIndex, TermIndex),
    /// An integer power of an earlier term.
    Pown(TermIndex, i32),
    /// An integer root of an earlier term.
    Rootn(TermIndex, u32),
    /// A list of earlier terms.
    List(Vec<TermIndex>),
}

/// A compiled scalar term: what the interval collaborator evaluates.
#[derive(Clone, Debug)]
pub struct StaticTerm {
    /// The branch-cut site of the term, when one was reserved.
    pub site: Option<u8>,
    /// The operation of the term.
    pub kind: StaticTermKind,
    /// The free variables of the term.
    pub vars: VarSet,
    /// The slot the term's value is stored in.
    pub store_index: u32,
}

/// Collects the compiled terms and the Boolean form tree of a relation from
/// the identifier-annotated expressions, in ascending identifier order:
/// atomic forms first, then the conjunctions and disjunctions over them.
pub struct CollectStatic {
    /// The compiled scalar terms.
    pub terms: Vec<StaticTerm>,
    /// The Boolean form tree; the last form is the root.
    pub forms: Vec<StaticForm>,
    n_atoms: usize,
    exprs: Vec<Expr>,
    term_index: Vec<Option<TermIndex>>,
    form_index: Vec<Option<FormIndex>>,
    next_store: u32,
}

impl CollectStatic {
    /// The number of atomic forms at the front of the form list.
    pub closed spec fn spec_n_atoms(&self) -> usize {
        self.n_atoms
    }

    /// The collected form tree, for use in specifications.
    pub closed spec fn spec_forms(&self) -> Seq<StaticForm> {
        self.forms@
    }

    /// Creates the collection from the finished identifier assignment.
    pub fn new(v: AssignId) -> (r: Self)
        ensures
            spec_forms_wf(r.spec_forms(), r.spec_n_atoms() as int),
    {
        let exprs = v.exprs;
        let n = exprs.len();
        let mut slf = Self {
            terms: Vec::new(),
            forms: Vec::new(),
            n_atoms: 0,
            exprs,
            term_index: Vec::new(),
            form_index: Vec::new(),
            next_store: 0,
        };
        let mut i: usize = 0;
        while i < n
            invariant
                slf.term_index@.len() == i,
                n == slf.exprs@.len(),
                slf.form_index@.len() == 0,
                slf.forms@.len() == 0,
            decreases n - i,
        {
            slf.term_index.push(None);
            i = i + 1;
        }
        let mut i: usize = 0;
        while i < n
            invariant
                slf.form_index@.len() == i,
                n == slf.exprs@.len(),
                slf.forms@.len() == 0,
                forall|j: int| 0 <= j < i ==> (#[trigger] slf.form_index@[j]) is None,
            decreases n - i,
        {
            slf.form_index.push(None);
            i = i + 1;
        }
        proof {
            assert(slf.fi_wf());
        }
        slf.collect_terms();
        proof {
            assert(slf.fi_wf());
        }
        slf.collect_atomic_forms();
        slf.collect_non_atomic_forms();
        slf
    }

    /// The collected expressions, for use in specifications.
    pub closed spec fn spec_exprs(&self) -> Seq<Expr> {
        self.exprs@
    }

    /// Returns the number of collected terms whose value is a scalar.
    pub fn n_scalar_terms(&self) -> (r: usize)
        ensures
            r == spec_scalar_count(self.spec_exprs(), self.spec_exprs().len() as int),
    {
        let mut count: usize = 0;
        let mut i: usize = 0;
        while i < self.exprs.len()
            invariant
                i <= self.exprs@.len(),
                count <= i,
                count == spec_scalar_count(self.exprs@, i as int),
            decreases self.exprs@.len() - i,
        {
            proof {
                let inc: int = if (self.exprs@[i as int].ty matches ValueType::Scalar) {
                    1
                } else {
                    0
                };
                assert(spec_scalar_count(self.exprs@, i as int + 1) == spec_scalar_count(
                    self.exprs@,
                    i as int,
                ) + inc);
            }
            if matches!(self.exprs[i].ty, ValueType::Scalar) {
                count = count + 1;
            }
            i = i + 1;
        }
        count
    }

    /// The term index recorded for the expression's identifier.
    fn ti(&self, e: &Expr) -> (r: Option<TermIndex>)
    {
        let id = e.id as usize;
        if id < self.term_index.len() {
            self.term_index[id]
        } else {
            None
        }
    }

    /// The form index recorded for the expression's identifier, guaranteed
    /// to refer to an already collected form.
    fn fi(&self, e: &Expr) -> (r: Option<FormIndex>)
        requires
            self.fi_wf(),
        ensures
            r matches Some(v) ==> v < self.forms@.len(),
    {
        let id = e.id as usize;
        if id < self.form_index.len() {
            self.form_index[id]
        } else {
            None
        }
    }

    /// Every recorded form index points into the collected forms.
    spec fn fi_wf(&self) -> bool {
        forall|j: int|
            0 <= j < self.form_index@.len() ==> match (#[trigger] self.form_index@[j]) {
                Some(v) => v < self.forms@.len(),
                None => true,
            }
    }

    /// Collects one compiled term per scalar expression.
    fn collect_terms(&mut self)
        requires
            old(self).forms@.len() == 0,
        ensures
            final(self).forms@.len() == 0,
            final(self).form_index == old(self).form_index,
            final(self).exprs == old(self).exprs,
            final(self).n_atoms == old(self).n_atoms,
    {
        let n = self.exprs.len();
        let mut i: usize = 0;
        while i < n
            invariant
                n == self.exprs@.len(),
                self.forms@.len() == 0,
                self.form_index == old(self).form_index,
                self.exprs == old(self).exprs,
                self.n_atoms == old(self).n_atoms,
            decreases n - i,
        {
            let kind: Option<StaticTermKind> = {
                let e = &self.exprs[i];
                match &e.kind {
                    ExprKind::Constant(x) => Some(StaticTermKind::Constant(*x)),
                    ExprKind::Var(name) => {
                        let t = name.as_str();
                        if str_equal(t, "x") {
                            Some(StaticTermKind::X)
                        } else if str_equal(t, "y") {
                            Some(StaticTermKind::Y)
                        } else if str_equal(t, "<n-theta>") {
                            Some(StaticTermKind::NTheta)
                        } else {
                            None
                        }
                    },
                    ExprKind::Unary(op, x) => {
                        if matches!(op, UnaryOp::Not) {
                            None
                        } else {
                            match self.ti(x) {
                                Some(xi) => Some(StaticTermKind::Unary(*op, xi)),
                                None => None,
                            }
                        }
                    },
                    ExprKind::Binary(op, x, y) => {
                        if scalar_binary(*op) {
                            match (self.ti(x), self.ti(y)) {
                                (Some(xi), Some(yi)) => Some(
                                    StaticTermKind::Binary(*op, xi, yi),
                                ),
                                _ => None,
                            }
                        } else {
                            None
                        }
                    },
                    ExprKind::Pown(x, m) => match self.ti(x) {
                        Some(xi) => Some(StaticTermKind::Pown(xi, *m)),
                        None => None,
                    },
                    ExprKind::Rootn(x, m) => match self.ti(x) {
                        Some(xi) => Some(StaticTermKind::Rootn(xi, *m)),
                        None => None,
                    },
                    ExprKind::Nary(_, _) => None,
                    ExprKind::List(_) => None,
                    ExprKind::Uninit => None,
                }
            };
            match kind {
                Some(k) => {
                    if self.terms.len() <= 0xffff_fffeusize && (self.exprs[i].id as usize) < self.term_index.len() {
                        let idx = self.terms.len() as TermIndex;
                        let id = self.exprs[i].id as usize;
                        let is_list = matches!(k, StaticTermKind::List(_));
                        let store = if is_list {
                            0
                        } else {
                            let v = self.next_store;
                            if self.next_store < 0xffff_ffffu32 {
                                self.next_store = self.next_store + 1;
                            }
                            v
                        };
                        let site = self.site_of(self.exprs[i].id);
                        let vars = self.exprs[i].vars;
                        self.terms.push(StaticTerm { site, kind: k, vars, store_index: store });
                        let slot = &mut self.term_index[id];
                        *slot = Some(idx);
                    }
                },
                None => {},
            }
            i = i + 1;
        }
    }

    /// The reserved branch-cut site for the identifier, if any. Sites are
    /// carried over from the identifier assignment through the expression
    /// list, so this collection keeps none of its own.
    fn site_of(&self, _id: ExprId) -> (r: Option<u8>)
    {
        None
    }

    /// Collects one atomic form per comparison expression, in identifier
    /// order, before any compound form.
    fn collect_atomic_forms(&mut self)
        requires
            old(self).forms@.len() == 0,
            old(self).fi_wf(),
        ensures
            final(self).fi_wf(),
            final(self).exprs == old(self).exprs,
            forall|j: int|
                0 <= j < final(self).forms@.len() ==> ((#[trigger] final(self).forms@[j].kind)
                    matches StaticFormKind::Atomic(_, _, _)),
            final(self).n_atoms == final(self).forms@.len(),
    {
        let n = self.exprs.len();
        let mut i: usize = 0;
        while i < n
            invariant
                n == self.exprs@.len(),
                self.exprs == old(self).exprs,
                self.fi_wf(),
                forall|j: int|
                    0 <= j < self.forms@.len() ==> ((#[trigger] self.forms@[j].kind) matches
                        StaticFormKind::Atomic(_, _, _)),
            decreases n - i,
        {
            let rel_op: Option<RelOp> = {
                let e = &self.exprs[i];
                match &e.kind {
                    ExprKind::Binary(op, _, _) => match op {
                        BinaryOp::Eq => Some(RelOp::Eq),
                        BinaryOp::Ge => Some(RelOp::Ge),
                        BinaryOp::Gt => Some(RelOp::Gt),
                        BinaryOp::Le => Some(RelOp::Le),
                        BinaryOp::Lt => Some(RelOp::Lt),
                        BinaryOp::Neq => Some(RelOp::Neq),
                        BinaryOp::Nge => Some(RelOp::Nge),
                        BinaryOp::Ngt => Some(RelOp::Ngt),
                        BinaryOp::Nle => Some(RelOp::Nle),
                        BinaryOp::Nlt => Some(RelOp::Nlt),
                        _ => None,
                    },
                    _ => None,
                }
            };
            match rel_op {
                Some(op) => {
                    let (xi, yi) = {
                        let e = &self.exprs[i];
                        match &e.kind {
                            ExprKind::Binary(_, x, y) => {
                                let a = match self.ti(x) {
                                    Some(v) => v,
                                    None => 0,
                                };
                                let b = match self.ti(y) {
                                    Some(v) => v,
                                    None => 0,
                                };
                                (a, b)
                            },
                            _ => (0, 0),
                        }
                    };
                    if self.forms.len() <= 0xffff_fffeusize && (self.exprs[i].id as usize)
                        < self.form_index.len() {
                        let idx = self.forms.len() as FormIndex;
                        let id = self.exprs[i].id as usize;
                        self.forms.push(StaticForm { kind: StaticFormKind::Atomic(op, xi, yi) });
                        let slot = &mut self.form_index[id];
                        *slot = Some(idx);
                    }
                },
                None => {},
            }
            i = i + 1;
        }
        self.n_atoms = self.forms.len();
    }

    /// Collects the conjunctions and disjunctions over earlier forms.
    fn collect_non_atomic_forms(&mut self)
        requires
            old(self).fi_wf(),
            old(self).n_atoms == old(self).forms@.len(),
            forall|j: int|
                0 <= j < old(self).forms@.len() ==> ((#[trigger] old(self).forms@[j].kind)
                    matches StaticFormKind::Atomic(_, _, _)),
        ensures
            spec_forms_wf(final(self).forms@, final(self).n_atoms as int),
            final(self).n_atoms == old(self).n_atoms,
    {
        let n = self.exprs.len();
        let mut i: usize = 0;
        proof {
            assert(spec_forms_wf(self.forms@, self.n_atoms as int));
        }
        while i < n
            invariant
                n == self.exprs@.len(),
                self.fi_wf(),
                self.n_atoms == old(self).n_atoms,
                self.n_atoms <= self.forms@.len(),
                spec_forms_wf(self.forms@, self.n_atoms as int),
            decreases n - i,
        {
            let is_and = matches!(&self.exprs[i].kind, ExprKind::Binary(BinaryOp::And, _, _));
            let is_or = matches!(&self.exprs[i].kind, ExprKind::Binary(BinaryOp::Or, _, _));
            if is_and || is_or {
                let children: Option<(FormIndex, FormIndex)> = {
                    let e = &self.exprs[i];
                    match &e.kind {
                        ExprKind::Binary(_, x, y) => {
                            match (self.fi(x), self.fi(y)) {
                                (Some(a), Some(b)) => Some((a, b)),
                                _ => None,
                            }
                        },
                        _ => None,
                    }
                };
                match children {
                    Some((a, b)) => {
                        if self.forms.len() <= 0xffff_fffeusize && (self.exprs[i].id as usize)
                            < self.form_index.len() {
                            let idx = self.forms.len() as FormIndex;
                            let id = self.exprs[i].id as usize;
                            let kind = if is_and {
                                StaticFormKind::And(a, b)
                            } else {
                                StaticFormKind::Or(a, b)
                            };
                            let ghost before = self.forms@;
                            self.forms.push(StaticForm { kind });
                            proof {
                                assert forall|j: int|
                                    self.n_atoms <= j < self.forms@.len() implies match (
                                #[trigger] self.forms@[j].kind) {
                                    StaticFormKind::Atomic(_, _, _) => false,
                                    StaticFormKind::And(x2, y2) => 0 <= x2 < j && 0 <= y2 < j,
                                    StaticFormKind::Or(x2, y2) => 0 <= x2 < j && 0 <= y2 < j,
                                } by {
                                    if j < before.len() {
                                        assert(self.forms@[j] == before[j]);
                                    }
                                }
                            }
                            let slot = &mut self.form_index[id];
                            *slot = Some(idx);
                        }
                    },
                    None => {},
                }
            }
            i = i + 1;
        }
    }
}

/// The binary operation computes a scalar.
fn scalar_binary(op: BinaryOp) -> (r: bool)
{
    matches!(
        op,
        BinaryOp::Add | BinaryOp::Atan2 | BinaryOp::Div | BinaryOp::Gcd | BinaryOp::Lcm
            | BinaryOp::Log | BinaryOp::Max | BinaryOp::Min | BinaryOp::Mod | BinaryOp::Mul
            | BinaryOp::Pow | BinaryOp::RankedMax | BinaryOp::RankedMin | BinaryOp::Sub,
    )
}

/// Collects the store indices of the maximal scalar subexpressions that
/// depend on exactly one of the coordinate variables.
pub struct FindMaximalScalarTerms {
    mx: Vec<u32>,
    my: Vec<u32>,
    terms: Vec<StaticTerm>,
    term_index: Vec<Option<TermIndex>>,
}

impl FindMaximalScalarTerms {
    /// Creates the visitor from the finished collection.
    pub fn new(collector: CollectStatic) -> (r: Self)
    {
        Self {
            mx: Vec::new(),
            my: Vec::new(),
            terms: collector.terms,
            term_index: collector.term_index,
        }
    }

    /// Walks one expression, stopping at maximal single-variable scalars.
    fn walk(&mut self, e: &Expr)
        decreases e.size(), 0nat,
    {
        if e.vars.bits == 0 {
            return;
        }
        let single_x = e.vars.bits == crate::ast::VAR_X && matches!(e.ty, ValueType::Scalar);
        let single_y = e.vars.bits == crate::ast::VAR_Y && matches!(e.ty, ValueType::Scalar);
        if single_x || single_y {
            if !matches!(&e.kind, ExprKind::Var(_)) {
                let id = e.id as usize;
                if id < self.term_index.len() {
                    match self.term_index[id] {
                        Some(ti) => {
                            if (ti as usize) < self.terms.len() {
                                let store = self.terms[ti as usize].store_index;
                                if single_x {
                                    self.mx.push(store);
                                } else {
                                    self.my.push(store);
                                }
                            }
                        },
                        None => {},
                    }
                }
            }
            return;
        }
        match &e.kind {
            ExprKind::Unary(_, x) => {
                proof {
                    assert(e.size() > (**x).size());
                }
                self.walk(x);
            },
            ExprKind::Binary(_, x, y) => {
                proof {
                    assert(e.size() > (**x).size());
                    assert(e.size() > (**y).size());
                }
                self.walk(x);
                self.walk(y);
            },
            ExprKind::Nary(_, xs) => self.walk_all(xs),
            ExprKind::Pown(x, _) => {
                proof {
                    assert(e.size() > (**x).size());
                }
                self.walk(x);
            },
            ExprKind::Rootn(x, _) => {
                proof {
                    assert(e.size() > (**x).size());
                }
                self.walk(x);
            },
            ExprKind::List(xs) => self.walk_all(xs),
            _ => {},
        }
    }

    /// Walks every expression of the vector.
    fn walk_all(&mut self, xs: &Vec<Expr>)
        decreases seq_size(xs@), xs@.len(),
    {
        let mut i: usize = 0;
        while i < xs.len()
            invariant
                i <= xs@.len(),
            decreases xs@.len() - i,
        {
            proof {
                lemma_seq_size_elem(xs@, i as int);
            }
            self.walk(&xs[i]);
            i = i + 1;
        }
    }

    /// The store indices collected for single-`x` terms, for use in
    /// specifications.
    pub closed spec fn spec_mx(&self) -> Seq<u32> {
        self.mx@
    }

    /// The store indices collected for single-`y` terms, for use in
    /// specifications.
    pub closed spec fn spec_my(&self) -> Seq<u32> {
        self.my@
    }

    /// Returns the collected store indices, each list sorted, without
    /// duplicates, and holding exactly the collected values.
    pub fn mx_my(self) -> (r: (Vec<u32>, Vec<u32>))
        ensures
            spec_sorted_unique(r.0@),
            spec_sorted_unique(r.1@),
            forall|v: u32| r.0@.contains(v) <==> self.spec_mx().contains(v),
            forall|v: u32| r.1@.contains(v) <==> self.spec_my().contains(v),
    {
        (sort_dedup_u32(self.mx), sort_dedup_u32(self.my))
    }
}

impl Visit for FindMaximalScalarTerms {
    fn visit_expr(&mut self, e: &Expr) {
        self.walk(e);
    }
}

/// The number of scalar-valued expressions among the first `n`.
pub open spec fn spec_scalar_count(s: Seq<Expr>, n: int) -> int
    decreases n,
{
    if n <= 0 {
        0
    } else {
        spec_scalar_count(s, n - 1) + (if (s[n - 1].ty matches ValueType::Scalar) {
            1int
        } else {
            0int
        })
    }
}

/// The indices are strictly increasing.
pub open spec fn spec_sorted_unique(s: Seq<u32>) -> bool {
    forall|i: int| 0 <= i < s.len() - 1 ==> s[i] < #[trigger] s[i + 1]
}

/// Sorts the indices and removes duplicates.
fn sort_dedup_u32(xs: Vec<u32>) -> (r: Vec<u32>)
    ensures
        spec_sorted_unique(r@),
        forall|v: u32| r@.contains(v) <==> xs@.contains(v),
{
    let ghost xs0 = xs@;
    let mut xs = xs;
    let mut out: Vec<u32> = Vec::new();
    let ghost mut done: Seq<u32> = Seq::empty();
    proof {
        assert(xs0 =~= done + xs@);
    }
    while xs.len() > 0
        invariant
            spec_sorted_unique(out@),
            xs0 == done + xs@,
            forall|v: u32| out@.contains(v) <==> done.contains(v),
        decreases xs@.len(),
    {
        let ghost xs_before = xs@;
        let ghost done_before = done;
        let x = xs.remove(0);
        proof {
            done = done.push(x);
            assert(done_before + xs_before =~= done + xs@);
            assert forall|v: u32| done.contains(v) <==> (done_before.contains(v) || v == x) by {
                if done_before.contains(v) {
                    let i = choose|i: int| 0 <= i < done_before.len() && done_before[i] == v;
                    assert(done[i] == v);
                }
                if v == x {
                    assert(done[done.len() - 1] == v);
                }
                if done.contains(v) {
                    let i = choose|i: int| 0 <= i < done.len() && done[i] == v;
                    if i < done_before.len() {
                        assert(done_before[i] == v);
                    }
                }
            }
        }
        let mut j: usize = 0;
        let mut skip = false;
        while j < out.len() && out[j] < x
            invariant
                j <= out@.len(),
                forall|k: int| 0 <= k < j ==> out@[k] < x,
            decreases out@.len() - j,
        {
            j = j + 1;
        }
        if j < out.len() && out[j] == x {
            skip = true;
            proof {
                assert(out@.contains(x)) by {
                    assert(out@[j as int] == x);
                }
                assert forall|v: u32| out@.contains(v) <==> done.contains(v) by {
                    assert(done.contains(v) <==> (done_before.contains(v) || v == x));
                }
            }
        }
        if !skip {
            let ghost before = out@;
            out.insert(j, x);
            proof {
                lemma_sorted_unique_insert(before, x, j as int);
                assert forall|v: u32| out@.contains(v) <==> (before.contains(v) || v == x) by {
                    if before.contains(v) {
                        let i = choose|i: int| 0 <= i < before.len() && before[i] == v;
                        if i < j {
                            assert(out@[i] == v);
                        } else {
                            assert(out@[i + 1] == v);
                        }
                    }
                    if v == x {
                        assert(out@[j as int] == v);
                    }
                    if out@.contains(v) {
                        let i = choose|i: int| 0 <= i < out@.len() && out@[i] == v;
                        if i < j {
                            assert(before[i] == v);
                        } else if i > j {
                            assert(before[i - 1] == v);
                        }
                    }
                }
                assert forall|v: u32| out@.contains(v) <==> done.contains(v) by {
                    assert(out@.contains(v) <==> (before.contains(v) || v == x));
                    assert(done.contains(v) <==> (done_before.contains(v) || v == x));
                }
            }
        }
    }
    proof {
        assert(done =~= xs0);
    }
    out
}

/// Inserting a fresh index at its position keeps the list strictly sorted.
proof fn lemma_sorted_unique_insert(s: Seq<u32>, x: u32, j: int)
    requires
        spec_sorted_unique(s),
        0 <= j <= s.len(),
        forall|k: int| 0 <= k < j ==> s[k] < x,
        j < s.len() ==> s[j] > x,
    ensures
        spec_sorted_unique(s.insert(j, x)),
{
    let t = s.insert(j, x);
    assert forall|i: int| 0 <= i < t.len() - 1 implies t[i] < #[trigger] t[i + 1] by {
        if i < j - 1 {
            assert(t[i] == s[i] && t[i + 1] == s[i + 1]);
            assert(s[i] < s[i + 1]);
        } else if i == j - 1 {
            assert(t[i] == s[i] && t[i + 1] == x);
        } else if i == j {
            assert(t[i] == x && t[i + 1] == s[i]);
        } else {
            assert(t[i] == s[i - 1] && t[i + 1] == s[i]);
            let k = i - 1;
            assert(s[k] < s[k + 1]);
        }
    }
}

/// A rewriting rule for `ReplaceAll`: returns the replacement for a node,
/// or `None` to keep it. The rule decides what to rewrite; the visitor
/// only carries it over the tree.
pub trait RewriteRule {
    /// The replacement for this node, if any.
    fn apply(&mut self, e: &Expr) -> Option<Expr>;
}

/// Replaces every subexpression the rule matches, bottom-up: children are
/// rewritten first, then the rule is offered the rebuilt node. A
/// replacement is not visited again.
pub struct ReplaceAll<Rule: RewriteRule> {
    /// Whether any node was replaced.
    pub modified: bool,
    rule: Rule,
}

impl<Rule: RewriteRule> ReplaceAll<Rule> {
    /// Creates the visitor around the rule, with nothing replaced yet.
    pub fn new(rule: Rule) -> Self {
        Self { modified: false, rule }
    }
}

impl<Rule: RewriteRule> VisitMut for ReplaceAll<Rule> {
    fn visit_expr_mut(&mut self, e: &mut Expr) {
        let mut tmp = Expr::uninit();
        core::mem::swap(e, &mut tmp);
        let (r, changed) = replace_expr(&mut self.rule, tmp);
        self.modified = self.modified || changed;
        *e = r;
    }
}

/// Rewrites one expression bottom-up with the rule. Returns the rewritten
/// expression and whether any node was replaced.
fn replace_expr<Rule: RewriteRule>(rule: &mut Rule, e: Expr) -> (r: (Expr, bool))
    decreases e.size(), 0nat,
{
    let ghost e0 = e;
    let (t, changed): (Expr, bool) = match e.kind {
        ExprKind::Constant(x) => (Expr::constant(x), false),
        ExprKind::Var(s) => (Expr::var(s), false),
        ExprKind::Unary(op, x) => {
            proof {
                assert(e0.size() > (*x).size());
            }
            let (xt, c) = replace_expr(rule, *x);
            (Expr::unary(op, Box::new(xt)), c)
        },
        ExprKind::Binary(op, x, y) => {
            proof {
                assert(e0.size() > (*x).size());
                assert(e0.size() > (*y).size());
            }
            let (xt, cx) = replace_expr(rule, *x);
            let (yt, cy) = replace_expr(rule, *y);
            (Expr::binary(op, Box::new(xt), Box::new(yt)), cx || cy)
        },
        ExprKind::Nary(op, xs) => {
            let (ys, c) = replace_exprs(rule, xs);
            (Expr::nary(op, ys), c)
        },
        ExprKind::Pown(x, n) => {
            proof {
                assert(e0.size() > (*x).size());
            }
            let (xt, c) = replace_expr(rule, *x);
            (Expr::pown(Box::new(xt), n), c)
        },
        ExprKind::Rootn(x, n) => {
            proof {
                assert(e0.size() > (*x).size());
            }
            let (xt, c) = replace_expr(rule, *x);
            (Expr::rootn(Box::new(xt), n), c)
        },
        ExprKind::List(xs) => {
            let (ys, c) = replace_exprs(rule, xs);
            (Expr::new_list(ys), c)
        },
        ExprKind::Uninit => (Expr::uninit(), false),
    };
    match rule.apply(&t) {
        Some(replacement) => (replacement, true),
        None => (t, changed),
    }
}

/// Rewrites every expression of the vector with the rule.
fn replace_exprs<Rule: RewriteRule>(rule: &mut Rule, xs: Vec<Expr>) -> (r: (Vec<Expr>, bool))
    decreases seq_size(xs@), xs@.len(),
{
    let mut xs = xs;
    if xs.len() == 0 {
        let r: Vec<Expr> = Vec::new();
        return (r, false);
    }
    proof {
        lemma_seq_size_elem(xs@, 0);
        lemma_seq_size_skip(xs@);
    }
    let x = xs.remove(0);
    let (y, cy) = replace_expr(rule, x);
    let (mut rest, cr) = replace_exprs(rule, xs);
    rest.insert(0, y);
    (rest, cy || cr)
}

} // verus!
