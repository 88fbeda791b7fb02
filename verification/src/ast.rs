//! The expression tree of a relation, with exact rational constants.

use vstd::arithmetic::div_mod::lemma_add_mod_noop;
use vstd::arithmetic::div_mod::lemma_fundamental_div_mod;
use vstd::arithmetic::div_mod::lemma_fundamental_div_mod_converse;
use vstd::arithmetic::div_mod::lemma_mod_multiples_basic;
use vstd::arithmetic::div_mod::lemma_mod_self_0;
use vstd::arithmetic::div_mod::lemma_small_mod;
use vstd::math::abs;
use vstd::prelude::*;

verus! {

/// Euclid's greatest common divisor on naturals; `spec_gcd(0, 0) == 0`.
pub open spec fn spec_gcd(a: nat, b: nat) -> nat
    decreases b,
{
    if b == 0 {
        a
    } else {
        spec_gcd(b, a % b)
    }
}

/// The greatest common divisor divides both arguments.
proof fn lemma_gcd_divides(a: nat, b: nat)
    ensures
        spec_gcd(a, b) > 0 ==> a % spec_gcd(a, b) == 0 && b % spec_gcd(a, b) == 0,
        a > 0 || b > 0 ==> spec_gcd(a, b) > 0,
    decreases b,
{
    if b == 0 {
        if a > 0 {
            lemma_mod_self_0(a as int);
            lemma_small_mod(0, a);
        }
    } else {
        lemma_gcd_divides(b, a % b);
        let g = spec_gcd(b, a % b);
        if g > 0 {
            lemma_fundamental_div_mod(a as int, b as int);
            assert(a == b * (a as int / b as int) + a % b);
            lemma_mod_multiples_basic(a as int / b as int, g as int);
            assert((b % g) == 0);
            let k = b as int / g as int;
            lemma_fundamental_div_mod(b as int, g as int);
            assert(b == g * k);
            assert(b * (a as int / b as int) == g * (k * (a as int / b as int)))
                by (nonlinear_arith)
                requires
                    b == g * k,
            ;
            lemma_mod_multiples_basic(k * (a as int / b as int), g as int);
            lemma_add_mod_noop(b * (a as int / b as int), (a % b) as int, g as int);
            lemma_small_mod(0, g);
            assert(a % g == 0);
        }
    }
}

/// Dividing both sides by a common divisor keeps the cross products equal:
/// if `g` divides `n` and `m`, then `(n / g) * m == n * (m / g)`.
proof fn lemma_div_cross(n: nat, m: nat, g: nat)
    requires
        g > 0,
        n % g == 0,
        m % g == 0,
    ensures
        (n / g) * m == n * (m / g),
{
    lemma_fundamental_div_mod(n as int, g as int);
    lemma_fundamental_div_mod(m as int, g as int);
    let a = n as int / g as int;
    let b = m as int / g as int;
    assert(n == g * a && m == g * b);
    assert(a * (g * b) == (g * a) * b) by (nonlinear_arith);
}

/// An exact rational number with a positive denominator, kept reduced by
/// construction. Arithmetic that would leave 64-bit range reports failure
/// instead of wrapping, and callers then leave the expression unfolded.
#[derive(Clone, Copy, Debug, Eq, PartialEq, Structural)]
pub struct Rational {
    /// The numerator, carrying the sign.
    pub num: i64,
    /// The denominator, at least 1.
    pub den: i64,
}

/// The normalized numerator of the fraction `n / d` (for `d > 0`):
/// both parts divided by their greatest common divisor.
pub open spec fn spec_norm_num(n: int, d: int) -> int {
    let g = spec_gcd(abs(n), abs(d)) as int;
    if n >= 0 {
        abs(n) as int / g
    } else {
        -(abs(n) as int / g)
    }
}

/// The normalized denominator of the fraction `n / d` (for `d > 0`).
pub open spec fn spec_norm_den(n: int, d: int) -> int {
    let g = spec_gcd(abs(n), abs(d)) as int;
    d / g
}

impl Rational {
    /// The denominator is positive.
    pub open spec fn wf(self) -> bool {
        self.den >= 1
    }

    /// The rationals denote the same value.
    pub open spec fn same_value(self, other: Self) -> bool {
        self.num * other.den == other.num * self.den
    }

    /// Returns the integer `n` as a rational.
    pub fn from_int(n: i64) -> (r: Self)
        ensures
            r.num == n,
            r.den == 1,
            r.wf(),
    {
        Self { num: n, den: 1 }
    }

    /// Returns `true` if the denominator is positive.
    pub fn wf_check(&self) -> (r: bool)
        ensures
            r == self.wf(),
    {
        self.den >= 1
    }

    /// Returns `true` if the rational is an integer in lowest terms.
    pub fn is_int(&self) -> (r: bool)
        ensures
            r == (self.den == 1),
    {
        self.den == 1
    }

    /// Returns `true` if the rational is the integer `n`.
    pub fn is_int_value(&self, n: i64) -> (r: bool)
        ensures
            r == (self.den == 1 && self.num == n),
    {
        self.den == 1 && self.num == n
    }

    /// Returns `true` if `self < other`, comparing exact values.
    pub fn lt(&self, other: &Self) -> (r: bool)
        requires
            self.wf(),
            other.wf(),
        ensures
            r == (self.num * other.den < other.num * self.den),
    {
        proof {
            lemma_i64_products_bounded(self.num as int, other.den as int);
            lemma_i64_products_bounded(other.num as int, self.den as int);
        }
        (self.num as i128) * (other.den as i128) < (other.num as i128) * (self.den as i128)
    }

    /// Returns the reduced rational `n / d`, or `None` if the reduced parts
    /// leave 64-bit range.
    pub fn make(n: i128, d: i128) -> (r: Option<Self>)
        requires
            d != 0,
            n > i128::MIN,
            d > i128::MIN,
        ensures
            r matches Some(q) ==> {
                &&& q.wf()
                &&& q.num * d == n * q.den
                &&& (d > 0 ==> q.num == spec_norm_num(n as int, d as int) && q.den == spec_norm_den(
                    n as int,
                    d as int,
                ))
            },
    {
        let (n2, d2): (i128, i128) = if d < 0 {
            (-n, -d)
        } else {
            (n, d)
        };
        let na: i128 = if n2 < 0 {
            -n2
        } else {
            n2
        };
        let g: i128 = gcd_i128(na, d2);
        proof {
            lemma_gcd_divides(na as nat, d2 as nat);
        }
        if g == 0 {
            return None;
        }
        let qn: i128 = na / g;
        let qd: i128 = d2 / g;
        proof {
            lemma_fundamental_div_mod(na as int, g as int);
            lemma_fundamental_div_mod(d2 as int, g as int);
            lemma_div_cross(na as nat, d2 as nat, g as nat);
            assert(qn * d2 == na * qd);
            if qd > 0 {
                assert(n2 >= 0 ==> qn * d2 == n2 * qd);
                assert(n2 < 0 ==> (-qn) * d2 == (-na) * qd) by (nonlinear_arith)
                    requires
                        qn * d2 == na * qd,
                ;
            }
        }
        if qd < 1 || qd > 0x7fff_ffff_ffff_ffff || qn > 0x7fff_ffff_ffff_ffff {
            return None;
        }
        let num: i64 = if n2 < 0 {
            (-qn) as i64
        } else {
            qn as i64
        };
        let r = Self { num, den: qd as i64 };
        proof {
            assert(r.num * d == n * r.den) by (nonlinear_arith)
                requires
                    n2 >= 0 ==> qn * d2 == n2 * qd,
                    n2 < 0 ==> (-qn) * d2 == (-na) * qd,
                    n2 < 0 ==> na == -n2,
                    d < 0 ==> n2 == -n && d2 == -d,
                    d > 0 ==> n2 == n && d2 == d,
                    d != 0,
                    r.num as int == (if n2 < 0 { -qn } else { qn as int }),
                    r.den == qd,
            ;
        }
        Some(r)
    }

    /// Returns the exact sum, or `None` if it leaves 64-bit range.
    pub fn add(&self, other: &Self) -> (r: Option<Self>)
        requires
            self.wf(),
            other.wf(),
        ensures
            r matches Some(q) ==> {
                &&& q.wf()
                &&& q.num * (self.den * other.den) == (self.num * other.den + other.num * self.den)
                    * q.den
            },
    {
        proof {
            lemma_i64_products_bounded(self.num as int, other.den as int);
            lemma_i64_products_bounded(other.num as int, self.den as int);
            lemma_i64_products_bounded(self.den as int, other.den as int);
        }
        let n: i128 = (self.num as i128) * (other.den as i128) + (other.num as i128) * (self.den
            as i128);
        let d: i128 = (self.den as i128) * (other.den as i128);
        proof {
            assert(d > 0) by (nonlinear_arith)
                requires
                    self.den >= 1 && other.den >= 1 && d == self.den * other.den,
            ;
        }
        Self::make(n, d)
    }

    /// Returns the exact product, or `None` if it leaves 64-bit range.
    pub fn mul(&self, other: &Self) -> (r: Option<Self>)
        requires
            self.wf(),
            other.wf(),
        ensures
            r matches Some(q) ==> {
                &&& q.wf()
                &&& q.num * (self.den * other.den) == (self.num * other.num) * q.den
            },
    {
        if self.num == i64::MIN || other.num == i64::MIN {
            return None;
        }
        proof {
            lemma_i64_products_bounded_sym(self.num as int, other.num as int);
            lemma_i64_products_bounded(self.den as int, other.den as int);
        }
        let n: i128 = (self.num as i128) * (other.num as i128);
        let d: i128 = (self.den as i128) * (other.den as i128);
        proof {
            assert(d > 0) by (nonlinear_arith)
                requires
                    self.den >= 1 && other.den >= 1 && d == self.den * other.den,
            ;
        }
        Self::make(n, d)
    }

    /// Returns the exact negation, or `None` when the numerator is the
    /// smallest 64-bit integer.
    pub fn neg(&self) -> (r: Option<Self>)
        requires
            self.wf(),
        ensures
            r matches Some(q) ==> q.wf() && q.num == -self.num && q.den == self.den,
    {
        if self.num == i64::MIN {
            None
        } else {
            Some(Self { num: -self.num, den: self.den })
        }
    }

    /// Returns the exact integer power, or `None` if an intermediate or the
    /// result leaves 64-bit range, or for a negative power of zero.
    pub fn pow_int(&self, e: i32) -> (r: Option<Self>)
        requires
            self.wf(),
        ensures
            r matches Some(q) ==> q.wf(),
        decreases
                (if e >= 0 {
                    e as int
                } else {
                    1 - e
                }),
    {
        if e == 0 {
            Some(Self { num: 1, den: 1 })
        } else if e < 0 {
            if e == i32::MIN {
                return None;
            }
            match self.recip() {
                Some(inv) => inv.pow_int(-e),
                None => None,
            }
        } else {
            match self.pow_int(e - 1) {
                Some(p) => p.mul(self),
                None => None,
            }
        }
    }

    /// Returns the exact reciprocal, or `None` for zero.
    pub fn recip(&self) -> (r: Option<Self>)
        requires
            self.wf(),
        ensures
            r matches Some(q) ==> {
                &&& q.wf()
                &&& self.num > 0 ==> q.num == self.den && q.den == self.num
                &&& self.num < 0 ==> q.num == -self.den && q.den == -self.num
            },
            r is None <==> (self.num == 0 || self.num == i64::MIN),
    {
        if self.num == 0 || self.num == i64::MIN {
            None
        } else if self.num < 0 {
            Some(Self { num: -self.den, den: -self.num })
        } else {
            Some(Self { num: self.den, den: self.num })
        }
    }
}

/// The cross products of two rationals with positive denominators fit in
/// 128-bit arithmetic.
pub proof fn lemma_cross_products_fit(x: Rational, y: Rational)
    ensures
        -0x4000_0000_0000_0000_0000_0000_0000_0000 <= x.num * y.den
            <= 0x4000_0000_0000_0000_0000_0000_0000_0000,
        -0x4000_0000_0000_0000_0000_0000_0000_0000 <= y.num * x.den
            <= 0x4000_0000_0000_0000_0000_0000_0000_0000,
{
    lemma_i64_products_bounded_sym2(x.num as int, y.den as int);
    lemma_i64_products_bounded_sym2(y.num as int, x.den as int);
}

/// The product of any two 64-bit integers stays inside 2^126 in magnitude.
proof fn lemma_i64_products_bounded_sym2(a: int, b: int)
    by (nonlinear_arith)
    requires
        -0x8000_0000_0000_0000 <= a <= 0x7fff_ffff_ffff_ffff,
        -0x8000_0000_0000_0000 <= b <= 0x7fff_ffff_ffff_ffff,
    ensures
        -0x4000_0000_0000_0000_0000_0000_0000_0000 <= a * b
            <= 0x4000_0000_0000_0000_0000_0000_0000_0000,
{
}

/// The product of a 64-bit integer and a positive 64-bit integer stays
/// strictly inside 2^126.
proof fn lemma_i64_products_bounded(a: int, b: int)
    by (nonlinear_arith)
    requires
        -0x8000_0000_0000_0000 <= a <= 0x7fff_ffff_ffff_ffff,
        1 <= b <= 0x7fff_ffff_ffff_ffff,
    ensures
        -0x4000_0000_0000_0000_0000_0000_0000_0000 < a * b
            < 0x4000_0000_0000_0000_0000_0000_0000_0000,
{
}

/// The product of two 64-bit integers away from the smallest value stays
/// strictly inside 2^126.
proof fn lemma_i64_products_bounded_sym(a: int, b: int)
    by (nonlinear_arith)
    requires
        -0x7fff_ffff_ffff_ffff <= a <= 0x7fff_ffff_ffff_ffff,
        -0x7fff_ffff_ffff_ffff <= b <= 0x7fff_ffff_ffff_ffff,
    ensures
        -0x4000_0000_0000_0000_0000_0000_0000_0000 < a * b
            < 0x4000_0000_0000_0000_0000_0000_0000_0000,
{
}

/// Euclid's algorithm on nonnegative 128-bit integers.
fn gcd_i128(a: i128, b: i128) -> (r: i128)
    requires
        a >= 0,
        b >= 0,
    ensures
        r == spec_gcd(a as nat, b as nat),
        r >= 0,
    decreases b,
{
    if b == 0 {
        a
    } else {
        gcd_i128(b, a % b)
    }
}

/// The identifier of an expression node after identifiers are assigned.
pub type ExprId = u32;

/// The identifier that marks a node whose identifier is not yet assigned.
pub const UNINIT_EXPR_ID: ExprId = 0xffff_ffff;

/// A unary operation on a term.
#[derive(Clone, Copy, Debug, Eq, PartialEq, Structural)]
pub enum UnaryOp {
    Abs,
    Ceil,
    Cos,
    Digamma,
    Exp,
    Exp10,
    Exp2,
    Floor,
    Gamma,
    Ln,
    Neg,
    Not,
    One,
    Recip,
    Sin,
    Sinc,
    Sqr,
    Sqrt,
    Tan,
    UndefAt0,
}

/// A binary operation on terms or formulas.
#[derive(Clone, Copy, Debug, Eq, PartialEq, Structural)]
pub enum BinaryOp {
    Add,
    And,
    Atan2,
    Div,
    Eq,
    Gcd,
    Ge,
    Gt,
    Lcm,
    Le,
    Log,
    Lt,
    Max,
    Min,
    Mod,
    Mul,
    Neq,
    Nge,
    Ngt,
    Nle,
    Nlt,
    Or,
    Pow,
    RankedMax,
    RankedMin,
    Sub,
}

/// A flattened associative operation.
#[derive(Clone, Copy, Debug, Eq, PartialEq, Structural)]
pub enum NaryOp {
    Plus,
    Times,
}

/// The type a node evaluates to.
#[derive(Clone, Copy, Debug, Eq, PartialEq, Structural)]
pub enum ValueType {
    Boolean,
    Scalar,
    Vector,
    Unknown,
}

/// The bit for the variable `x` in a [`VarSet`].
pub const VAR_X: u8 = 1;

/// The bit for the variable `y` in a [`VarSet`].
pub const VAR_Y: u8 = 2;

/// The bit for every other variable in a [`VarSet`].
pub const VAR_OTHER: u8 = 4;

/// The set of free variables of a node, as a bit vector.
#[derive(Clone, Copy, Debug, Eq, PartialEq, Structural)]
pub struct VarSet {
    /// The variable bits.
    pub bits: u8,
}

/// What kind of node an expression is.
#[derive(Debug)]
pub enum ExprKind {
    /// An exact rational constant.
    Constant(Rational),
    /// A variable, by name.
    Var(String),
    /// A unary operation.
    Unary(UnaryOp, Box<Expr>),
    /// A binary operation.
    Binary(BinaryOp, Box<Expr>, Box<Expr>),
    /// A flattened associative operation over two or more terms.
    Nary(NaryOp, Vec<Expr>),
    /// An integer power.
    Pown(Box<Expr>, i32),
    /// An integer root.
    Rootn(Box<Expr>, u32),
    /// A list of expressions.
    List(Vec<Expr>),
    /// A moved-from placeholder.
    Uninit,
}

/// An expression node together with its metadata.
#[derive(Debug)]
pub struct Expr {
    /// The identifier assigned to the node, or [`UNINIT_EXPR_ID`].
    pub id: ExprId,
    /// What the node is.
    pub kind: ExprKind,
    /// The period of the node along the polar branch index, when known:
    /// `Some(0)` for nodes that do not depend on θ.
    pub polar_period: Option<u64>,
    /// The free variables of the node, filled in by metadata updates.
    pub vars: VarSet,
    /// The type of the node, filled in by metadata updates.
    pub ty: ValueType,
}

impl Expr {
    /// Creates an expression of the given kind with unassigned metadata.
    pub fn new(kind: ExprKind) -> (r: Self)
        ensures
            r.kind == kind,
            r.id == UNINIT_EXPR_ID,
            r.polar_period is None,
            r.vars.bits == 0,
            r.ty == ValueType::Unknown,
    {
        Self {
            id: UNINIT_EXPR_ID,
            kind,
            polar_period: None,
            vars: VarSet { bits: 0 },
            ty: ValueType::Unknown,
        }
    }

    /// Creates a constant node.
    pub fn constant(x: Rational) -> (r: Self)
        ensures
            r == Self::spec_const_expr(x),
            r.kind == ExprKind::Constant(x),
    {
        Self::new(ExprKind::Constant(x))
    }

    /// Creates a variable node.
    pub fn var(name: String) -> (r: Self)
        ensures
            r.kind == ExprKind::Var(name),
    {
        Self::new(ExprKind::Var(name))
    }

    /// Creates a unary node.
    pub fn unary(op: UnaryOp, x: Box<Expr>) -> (r: Self)
        ensures
            r.kind == ExprKind::Unary(op, x),
    {
        Self::new(ExprKind::Unary(op, x))
    }

    /// Creates a binary node.
    pub fn binary(op: BinaryOp, x: Box<Expr>, y: Box<Expr>) -> (r: Self)
        ensures
            r.kind == ExprKind::Binary(op, x, y),
    {
        Self::new(ExprKind::Binary(op, x, y))
    }

    /// Creates an n-ary node.
    pub fn nary(op: NaryOp, xs: Vec<Expr>) -> (r: Self)
        ensures
            r.kind == ExprKind::Nary(op, xs),
    {
        Self::new(ExprKind::Nary(op, xs))
    }

    /// Creates an integer-power node.
    pub fn pown(x: Box<Expr>, n: i32) -> (r: Self)
        ensures
            r.kind == ExprKind::Pown(x, n),
    {
        Self::new(ExprKind::Pown(x, n))
    }

    /// Creates an integer-root node.
    pub fn rootn(x: Box<Expr>, n: u32) -> (r: Self)
        ensures
            r.kind == ExprKind::Rootn(x, n),
    {
        Self::new(ExprKind::Rootn(x, n))
    }

    /// Creates a list node.
    pub fn new_list(xs: Vec<Expr>) -> (r: Self)
        ensures
            r.kind == ExprKind::List(xs),
    {
        Self::new(ExprKind::List(xs))
    }

    /// Creates a moved-from placeholder node.
    pub fn uninit() -> (r: Self)
        ensures
            r.kind == ExprKind::Uninit,
    {
        Self::new(ExprKind::Uninit)
    }

    /// The constant −1.
    pub fn minus_one() -> (r: Self)
        ensures
            r.kind == ExprKind::Constant(Rational { num: -1 as i64, den: 1 }),
            r == Self::spec_const_expr(Rational { num: -1 as i64, den: 1 }),
    {
        Self::constant(Rational::from_int(-1))
    }

    /// The constant 0.
    pub fn zero() -> (r: Self)
        ensures
            r.kind == ExprKind::Constant(Rational { num: 0, den: 1 }),
            r == Self::spec_const_expr(Rational { num: 0, den: 1 }),
    {
        Self::constant(Rational::from_int(0))
    }

    /// The constant 1.
    pub fn one() -> (r: Self)
        ensures
            r.kind == ExprKind::Constant(Rational { num: 1, den: 1 }),
            r == Self::spec_const_expr(Rational { num: 1, den: 1 }),
    {
        Self::constant(Rational::from_int(1))
    }

    /// The constant 2.
    pub fn two() -> (r: Self)
        ensures
            r.kind == ExprKind::Constant(Rational { num: 2, den: 1 }),
            r == Self::spec_const_expr(Rational { num: 2, den: 1 }),
    {
        Self::constant(Rational::from_int(2))
    }

    /// The constant 1/2.
    pub fn one_half() -> (r: Self)
        ensures
            r.kind == ExprKind::Constant(Rational { num: 1, den: 2 }),
            r == Self::spec_const_expr(Rational { num: 1, den: 2 }),
    {
        Self::constant(Rational { num: 1, den: 2 })
    }

    /// The constant node holding the given rational, with unassigned metadata.
    pub open spec fn spec_const_expr(x: Rational) -> Expr {
        Expr {
            id: UNINIT_EXPR_ID,
            kind: ExprKind::Constant(x),
            polar_period: None,
            vars: VarSet { bits: 0 },
            ty: ValueType::Unknown,
        }
    }

    /// The number of nodes of the expression, for termination measures.
    pub open spec fn size(self) -> nat
        decreases self,
    {
        1 + match self.kind {
            ExprKind::Constant(_) => 0,
            ExprKind::Var(_) => 0,
            ExprKind::Unary(_, x) => x.size(),
            ExprKind::Binary(_, x, y) => x.size() + y.size(),
            ExprKind::Nary(_, xs) => seq_size(xs@),
            ExprKind::Pown(x, _) => x.size(),
            ExprKind::Rootn(x, _) => x.size(),
            ExprKind::List(xs) => seq_size(xs@),
            ExprKind::Uninit => 0,
        }
    }
}

/// The total number of nodes of a sequence of expressions.
pub open spec fn seq_size(s: Seq<Expr>) -> nat
    decreases s,
{
    if s.len() == 0 {
        0
    } else {
        s[0].size() + seq_size(s.skip(1))
    }
}

/// Every element of a sequence is no larger than the whole, and a nonempty
/// sequence's total size is at least 1 per element.
pub proof fn lemma_seq_size_elem(s: Seq<Expr>, i: int)
    requires
        0 <= i < s.len(),
    ensures
        s[i].size() <= seq_size(s),
        s[i].size() >= 1,
    decreases s.len(),
{
    assert(s[i].size() >= 1);
    if i == 0 {
    } else {
        lemma_seq_size_elem(s.skip(1), i - 1);
        assert(s.skip(1)[i - 1] == s[i]);
    }
}

impl Clone for Expr {
    /// Returns a structurally equal copy of the expression.
    fn clone(&self) -> (r: Self)
        ensures
            spec_expr_eq(*self, r),
    {
        clone_expr(self)
    }
}

/// Returns a structurally equal copy of the expression, keeping the node's
/// own metadata.
pub fn clone_expr(e: &Expr) -> (r: Expr)
    ensures
        spec_expr_eq(*e, r),
        r.id == e.id,
        r.polar_period == e.polar_period,
        r.vars == e.vars,
        r.ty == e.ty,
    decreases e.size(), 0nat,
{
    let kind = match &e.kind {
        ExprKind::Constant(x) => ExprKind::Constant(*x),
        ExprKind::Var(s) => ExprKind::Var(s.clone()),
        ExprKind::Unary(op, x) => ExprKind::Unary(*op, Box::new(clone_expr(x))),
        ExprKind::Binary(op, x, y) => ExprKind::Binary(
            *op,
            Box::new(clone_expr(x)),
            Box::new(clone_expr(y)),
        ),
        ExprKind::Nary(op, xs) => ExprKind::Nary(*op, clone_exprs(xs)),
        ExprKind::Pown(x, n) => ExprKind::Pown(Box::new(clone_expr(x)), *n),
        ExprKind::Rootn(x, n) => ExprKind::Rootn(Box::new(clone_expr(x)), *n),
        ExprKind::List(xs) => ExprKind::List(clone_exprs(xs)),
        ExprKind::Uninit => ExprKind::Uninit,
    };
    Expr { id: e.id, kind, polar_period: e.polar_period, vars: e.vars, ty: e.ty }
}

/// Returns structurally equal copies of all expressions of the vector.
fn clone_exprs(xs: &Vec<Expr>) -> (r: Vec<Expr>)
    ensures
        spec_seq_eq(xs@, r@),
    decreases seq_size(xs@), xs@.len(),
{
    let mut out: Vec<Expr> = Vec::new();
    let mut i: usize = 0;
    while i < xs.len()
        invariant
            i <= xs@.len(),
            out@.len() == i,
            spec_seq_eq_upto(xs@, out@, i as int),
        decreases xs@.len() - i,
    {
        proof {
            lemma_seq_size_elem(xs@, i as int);
        }
        let c = clone_expr(&xs[i]);
        let ghost old_out = out@;
        out.push(c);
        proof {
            lemma_seq_eq_upto_stable(xs@, old_out, out@, i as int);
            assert(spec_seq_eq_upto(xs@, out@, i as int + 1));
        }
        i = i + 1;
    }
    proof {
        lemma_seq_eq_upto_full(xs@, out@, xs@.len() as int, 0);
    }
    out
}

/// Structural equality of expressions, ignoring identifiers and metadata.
pub open spec fn spec_expr_eq(a: Expr, b: Expr) -> bool
    decreases a,
{
    match (a.kind, b.kind) {
        (ExprKind::Constant(x), ExprKind::Constant(y)) => x == y,
        (ExprKind::Var(x), ExprKind::Var(y)) => x@ == y@,
        (ExprKind::Unary(opa, x), ExprKind::Unary(opb, y)) => opa == opb && spec_expr_eq(*x, *y),
        (ExprKind::Binary(opa, x1, x2), ExprKind::Binary(opb, y1, y2)) => opa == opb
            && spec_expr_eq(*x1, *y1) && spec_expr_eq(*x2, *y2),
        (ExprKind::Nary(opa, xs), ExprKind::Nary(opb, ys)) => opa == opb && spec_seq_eq(xs@, ys@),
        (ExprKind::Pown(x, na), ExprKind::Pown(y, nb)) => na == nb && spec_expr_eq(*x, *y),
        (ExprKind::Rootn(x, na), ExprKind::Rootn(y, nb)) => na == nb && spec_expr_eq(*x, *y),
        (ExprKind::List(xs), ExprKind::List(ys)) => spec_seq_eq(xs@, ys@),
        (ExprKind::Uninit, ExprKind::Uninit) => true,
        _ => false,
    }
}

/// Structural equality of expression sequences.
pub open spec fn spec_seq_eq(a: Seq<Expr>, b: Seq<Expr>) -> bool
    decreases a,
{
    if a.len() != b.len() {
        false
    } else if a.len() == 0 {
        true
    } else {
        spec_expr_eq(a[0], b[0]) && spec_seq_eq(a.skip(1), b.skip(1))
    }
}

/// Compares two expressions structurally, ignoring identifiers and metadata.
pub fn expr_eq(a: &Expr, b: &Expr) -> (r: bool)
    ensures
        r == spec_expr_eq(*a, *b),
    decreases a.size(), 0nat,
{
    match (&a.kind, &b.kind) {
        (ExprKind::Constant(x), ExprKind::Constant(y)) => x.num == y.num && x.den == y.den,
        (ExprKind::Var(x), ExprKind::Var(y)) => (*x) == (*y),
        (ExprKind::Unary(opa, x), ExprKind::Unary(opb, y)) => *opa == *opb && expr_eq(x, y),
        (ExprKind::Binary(opa, x1, x2), ExprKind::Binary(opb, y1, y2)) => *opa == *opb && expr_eq(
            x1,
            y1,
        ) && expr_eq(x2, y2),
        (ExprKind::Nary(opa, xs), ExprKind::Nary(opb, ys)) => *opa == *opb && expr_seq_eq(xs, ys),
        (ExprKind::Pown(x, na), ExprKind::Pown(y, nb)) => *na == *nb && expr_eq(x, y),
        (ExprKind::Rootn(x, na), ExprKind::Rootn(y, nb)) => *na == *nb && expr_eq(x, y),
        (ExprKind::List(xs), ExprKind::List(ys)) => expr_seq_eq(xs, ys),
        (ExprKind::Uninit, ExprKind::Uninit) => true,
        _ => false,
    }
}

/// Compares two expression vectors structurally.
fn expr_seq_eq(a: &Vec<Expr>, b: &Vec<Expr>) -> (r: bool)
    ensures
        r == spec_seq_eq(a@, b@),
    decreases seq_size(a@), a@.len(),
{
    if a.len() != b.len() {
        return false;
    }
    let mut i: usize = 0;
    let mut ok = true;
    while i < a.len()
        invariant
            a@.len() == b@.len(),
            i <= a@.len(),
            ok == spec_seq_eq_upto(a@, b@, i as int),
        decreases a@.len() - i,
    {
        proof {
            lemma_seq_size_elem(a@, i as int);
        }
        let e = expr_eq(&a[i], &b[i]);
        proof {
            assert(spec_seq_eq_upto(a@, b@, i as int + 1) == (spec_seq_eq_upto(
                a@,
                b@,
                i as int,
            ) && spec_expr_eq(a@[i as int], b@[i as int])));
        }
        ok = ok && e;
        i = i + 1;
    }
    proof {
        lemma_seq_eq_upto_full(a@, b@, a@.len() as int, 0);
    }
    ok
}

/// `spec_seq_eq_upto` reads only the first `k` elements of either sequence.
proof fn lemma_seq_eq_upto_stable(a: Seq<Expr>, b1: Seq<Expr>, b2: Seq<Expr>, k: int)
    requires
        forall|j: int| 0 <= j < k ==> b1[j] == b2[j],
    ensures
        spec_seq_eq_upto(a, b1, k) == spec_seq_eq_upto(a, b2, k),
    decreases k,
{
    if k > 0 {
        lemma_seq_eq_upto_stable(a, b1, b2, k - 1);
    }
}

/// Structural equality of the first `k` elements of two equal-length
/// sequences.
pub open spec fn spec_seq_eq_upto(a: Seq<Expr>, b: Seq<Expr>, k: int) -> bool
    decreases k,
{
    if k <= 0 {
        true
    } else {
        spec_seq_eq_upto(a, b, k - 1) && spec_expr_eq(a[k - 1], b[k - 1])
    }
}

/// Element-wise equality up to the full length is sequence equality.
proof fn lemma_seq_eq_upto_full(a: Seq<Expr>, b: Seq<Expr>, k: int, base: int)
    requires
        a.len() == b.len(),
        k == a.len(),
    ensures
        spec_seq_eq_upto(a, b, k) == spec_seq_eq(a, b),
    decreases a.len(),
{
    if a.len() == 0 {
    } else {
        lemma_seq_eq_upto_full(a.skip(1), b.skip(1), k - 1, base);
        assert forall|j: int| 0 <= j < k - 1 implies a.skip(1)[j] == a[j + 1] && b.skip(1)[j]
            == b.index(j + 1) by {}
        lemma_seq_eq_upto_shift(a, b, k - 1);
    }
}

/// `spec_seq_eq_upto` on tails matches `spec_seq_eq_upto` shifted by one.
proof fn lemma_seq_eq_upto_shift(a: Seq<Expr>, b: Seq<Expr>, k: int)
    requires
        0 <= k,
        k + 1 <= a.len(),
        k + 1 <= b.len(),
    ensures
        spec_seq_eq_upto(a, b, k + 1) == (spec_expr_eq(a[0], b[0]) && spec_seq_eq_upto(
            a.skip(1),
            b.skip(1),
            k,
        )),
    decreases k,
{
    if k == 0 {
        assert(spec_seq_eq_upto(a, b, 1) == (spec_seq_eq_upto(a, b, 0) && spec_expr_eq(
            a[0],
            b[0],
        )));
        assert(spec_seq_eq_upto(a.skip(1), b.skip(1), 0));
    } else {
        lemma_seq_eq_upto_shift(a, b, k - 1);
        assert(a.skip(1)[k - 1] == a[k]);
        assert(b.skip(1)[k - 1] == b[k]);
        assert(spec_seq_eq_upto(a.skip(1), b.skip(1), k) == (spec_seq_eq_upto(
            a.skip(1),
            b.skip(1),
            k - 1,
        ) && spec_expr_eq(a.skip(1)[k - 1], b.skip(1)[k - 1])));
        assert(spec_seq_eq_upto(a, b, k + 1) == (spec_seq_eq_upto(a, b, k) && spec_expr_eq(
            a[k],
            b[k],
        )));
    }
}

} // verus!
