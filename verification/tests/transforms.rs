//! Tests of the expression transform visitors, driven by a small parser and
//! printer for the test inputs.

use graphing::{
    cmp_terms, BinaryOp, Expr, ExprKind, Flatten, FoldConstant, NaryOp, PostTransform,
    PreTransform, Rational, SortTerms, Transform, UnaryOp, UpdatePolarPeriod, VisitMut,
};

fn num(n: i64) -> Expr {
    Expr::constant(Rational::from_int(n))
}

struct Parser {
    chars: Vec<char>,
    pos: usize,
}

impl Parser {
    fn new(s: &str) -> Self {
        Parser { chars: s.chars().collect(), pos: 0 }
    }

    fn peek(&self) -> Option<char> {
        self.chars.get(self.pos).copied()
    }

    fn skip_ws(&mut self) {
        while self.peek() == Some(' ') {
            self.pos += 1;
        }
    }

    fn eat(&mut self, c: char) -> bool {
        self.skip_ws();
        if self.peek() == Some(c) {
            self.pos += 1;
            true
        } else {
            false
        }
    }

    fn form(&mut self) -> Expr {
        let mut e = self.and_form();
        loop {
            self.skip_ws();
            if self.peek() == Some('|') && self.chars.get(self.pos + 1) == Some(&'|') {
                self.pos += 2;
                let rhs = self.and_form();
                e = Expr::binary(BinaryOp::Or, Box::new(e), Box::new(rhs));
            } else {
                return e;
            }
        }
    }

    fn and_form(&mut self) -> Expr {
        let mut e = self.not_form();
        loop {
            self.skip_ws();
            if self.peek() == Some('&') && self.chars.get(self.pos + 1) == Some(&'&') {
                self.pos += 2;
                let rhs = self.not_form();
                e = Expr::binary(BinaryOp::And, Box::new(e), Box::new(rhs));
            } else {
                return e;
            }
        }
    }

    fn not_form(&mut self) -> Expr {
        self.skip_ws();
        if self.eat('!') {
            let x = self.not_form();
            Expr::unary(UnaryOp::Not, Box::new(x))
        } else {
            self.equality()
        }
    }

    fn equality(&mut self) -> Expr {
        let first = self.additive();
        let mut terms = vec![first];
        let mut ops: Vec<BinaryOp> = Vec::new();
        loop {
            self.skip_ws();
            let op = match self.peek() {
                Some('=') => {
                    self.pos += 1;
                    BinaryOp::Eq
                }
                Some('≤') => {
                    self.pos += 1;
                    BinaryOp::Le
                }
                Some('≥') => {
                    self.pos += 1;
                    BinaryOp::Ge
                }
                Some('<') => {
                    self.pos += 1;
                    if self.peek() == Some('=') {
                        self.pos += 1;
                        BinaryOp::Le
                    } else {
                        BinaryOp::Lt
                    }
                }
                Some('>') => {
                    self.pos += 1;
                    if self.peek() == Some('=') {
                        self.pos += 1;
                        BinaryOp::Ge
                    } else {
                        BinaryOp::Gt
                    }
                }
                _ => break,
            };
            let rhs = self.additive();
            terms.push(rhs);
            ops.push(op);
        }
        if ops.is_empty() {
            return terms.pop().unwrap();
        }
        let mut cmps: Vec<Expr> = Vec::new();
        for (i, op) in ops.iter().enumerate() {
            cmps.push(Expr::binary(
                *op,
                Box::new(deep_clone(&terms[i])),
                Box::new(deep_clone(&terms[i + 1])),
            ));
        }
        let mut e = cmps.remove(0);
        for c in cmps {
            e = Expr::binary(BinaryOp::And, Box::new(e), Box::new(c));
        }
        e
    }

    fn additive(&mut self) -> Expr {
        let mut e = self.multiplicative();
        loop {
            self.skip_ws();
            match self.peek() {
                Some('+') => {
                    self.pos += 1;
                    let rhs = self.multiplicative();
                    e = Expr::binary(BinaryOp::Add, Box::new(e), Box::new(rhs));
                }
                Some('-') => {
                    self.pos += 1;
                    let rhs = self.multiplicative();
                    e = Expr::binary(BinaryOp::Sub, Box::new(e), Box::new(rhs));
                }
                _ => return e,
            }
        }
    }

    fn multiplicative(&mut self) -> Expr {
        let mut e = self.unary();
        loop {
            self.skip_ws();
            match self.peek() {
                Some('*') => {
                    self.pos += 1;
                    let rhs = self.unary();
                    e = Expr::binary(BinaryOp::Mul, Box::new(e), Box::new(rhs));
                }
                Some('/') => {
                    self.pos += 1;
                    let rhs = self.unary();
                    e = Expr::binary(BinaryOp::Div, Box::new(e), Box::new(rhs));
                }
                Some(c) if c.is_ascii_alphabetic() || c.is_ascii_digit() || c == '(' || c == 'θ' => {
                    let rhs = self.unary();
                    e = Expr::binary(BinaryOp::Mul, Box::new(e), Box::new(rhs));
                }
                _ => return e,
            }
        }
    }

    fn unary(&mut self) -> Expr {
        self.skip_ws();
        if self.eat('-') {
            let x = self.unary();
            Expr::unary(UnaryOp::Neg, Box::new(x))
        } else {
            self.power()
        }
    }

    fn power(&mut self) -> Expr {
        let base = self.primary();
        self.skip_ws();
        if self.eat('^') {
            let exp = self.unary();
            Expr::binary(BinaryOp::Pow, Box::new(base), Box::new(exp))
        } else {
            base
        }
    }

    fn primary(&mut self) -> Expr {
        self.skip_ws();
        match self.peek() {
            Some('(') => {
                self.pos += 1;
                let e = self.form();
                assert!(self.eat(')'));
                e
            }
            Some(c) if c.is_ascii_digit() => {
                let mut v: i64 = 0;
                while let Some(d) = self.peek() {
                    if let Some(k) = d.to_digit(10) {
                        v = v * 10 + k as i64;
                        self.pos += 1;
                    } else {
                        break;
                    }
                }
                num(v)
            }
            Some(c) if c.is_ascii_alphabetic() || c == 'θ' => {
                let mut name = String::new();
                while let Some(d) = self.peek() {
                    if d.is_ascii_alphanumeric() || d == 'θ' {
                        name.push(d);
                        self.pos += 1;
                    } else {
                        break;
                    }
                }
                if self.peek() == Some('(') {
                    self.pos += 1;
                    let mut args = vec![self.form()];
                    while self.eat(',') {
                        args.push(self.form());
                    }
                    assert!(self.eat(')'));
                    apply_function(&name, args)
                } else {
                    Expr::var(name)
                }
            }
            other => panic!("unexpected character {:?}", other),
        }
    }
}

fn apply_function(name: &str, mut args: Vec<Expr>) -> Expr {
    let unary = |op: UnaryOp, mut args: Vec<Expr>| {
        assert_eq!(args.len(), 1);
        Expr::unary(op, Box::new(args.remove(0)))
    };
    match name {
        "sqrt" => unary(UnaryOp::Sqrt, args),
        "sin" => unary(UnaryOp::Sin, args),
        "cos" => unary(UnaryOp::Cos, args),
        "tan" => unary(UnaryOp::Tan, args),
        "exp" => unary(UnaryOp::Exp, args),
        "min" => {
            assert_eq!(args.len(), 2);
            let b = args.pop().unwrap();
            let a = args.pop().unwrap();
            Expr::binary(BinaryOp::Min, Box::new(a), Box::new(b))
        }
        "max" => {
            assert_eq!(args.len(), 2);
            let b = args.pop().unwrap();
            let a = args.pop().unwrap();
            Expr::binary(BinaryOp::Max, Box::new(a), Box::new(b))
        }
        other => panic!("unknown function {other}"),
    }
}

fn parse_expr(s: &str) -> Expr {
    let mut p = Parser::new(s);
    let e = p.form();
    p.skip_ws();
    assert_eq!(p.pos, p.chars.len(), "trailing input in {s:?}");
    e
}

fn deep_clone(e: &Expr) -> Expr {
    e.clone()
}

fn dump_rational(r: &Rational) -> String {
    if r.den == 1 {
        return format!("{}", r.num);
    }
    let mut scale: i64 = 1;
    for k in 1..=18i64 {
        scale *= 10;
        if scale % r.den == 0 {
            let v = r.num * (scale / r.den);
            let sign = if v < 0 { "-" } else { "" };
            let a = v.abs();
            let int_part = a / scale;
            let mut frac = format!("{:0width$}", a % scale, width = k as usize);
            while frac.ends_with('0') {
                frac.pop();
            }
            return format!("{sign}{int_part}.{frac}");
        }
    }
    format!("{}/{}", r.num, r.den)
}

fn dump(e: &Expr) -> String {
    match &e.kind {
        ExprKind::Constant(r) => dump_rational(r),
        ExprKind::Var(s) => s.clone(),
        ExprKind::Unary(op, x) => format!("({:?} {})", op, dump(x)),
        ExprKind::Binary(op, x, y) => format!("({:?} {} {})", op, dump(x), dump(y)),
        ExprKind::Nary(op, xs) => {
            let mut s = format!("({:?}", op);
            for x in xs {
                s.push(' ');
                s.push_str(&dump(x));
            }
            s.push(')');
            s
        }
        ExprKind::Pown(x, n) => format!("(Pown {} {})", dump(x), n),
        ExprKind::Rootn(x, n) => format!("(Rootn {} {})", dump(x), n),
        ExprKind::List(xs) => {
            let mut s = "(List".to_string();
            for x in xs {
                s.push(' ');
                s.push_str(&dump(x));
            }
            s.push(')');
            s
        }
        ExprKind::Uninit => "Uninit".to_string(),
    }
}

#[test]
fn pre_transform() {
    fn test(input: &str, expected: &str) {
        let mut f = parse_expr(input);
        PreTransform.visit_expr_mut(&mut f);
        assert_eq!(format!("{}", dump(&f)), expected);
    }

    test("-x", "(Times -1 x)");
    test("sqrt(x)", "(Pow x 0.5)");
    test("x - y", "(Plus x (Times -1 y))");
    test("x/y", "(Times x (Pow y -1))");
    test("sin(x)/x", "(Sinc (UndefAt0 x))");
    test("x/sin(x)", "(Pow (Sinc (UndefAt0 x)) -1)");
    test("x y", "(Times x y)");
    test("x - y", "(Plus x (Times -1 y))");
}

#[test]
fn flatten() {
    fn test(input: &str, expected: &str) {
        let mut e = parse_expr(input);
        PreTransform.visit_expr_mut(&mut e);
        Transform::default().visit_expr_mut(&mut e);
        let input = format!("{}", dump(&e));
        let mut v = Flatten::default();
        v.visit_expr_mut(&mut e);
        let output = format!("{}", dump(&e));
        assert_eq!(format!("{}", dump(&e)), expected);
        assert_eq!(v.modified, input != output);
    }

    test("x + y + z", "(Plus x y z)");
    test("(x + y) + z", "(Plus x y z)");
    test("x + (y + z)", "(Plus x y z)");
    test("x y z", "(Times x y z)");
    test("(x y) z", "(Times x y z)");
    test("x (y z)", "(Times x y z)");
    test("0 + 0", "0");
    test("1*1", "1");
}

#[test]
fn sort_terms() {
    fn test(input: &str, expected: &str) {
        let mut e = parse_expr(input);
        PreTransform.visit_expr_mut(&mut e);
        FoldConstant::default().visit_expr_mut(&mut e);
        Flatten::default().visit_expr_mut(&mut e);
        FoldConstant::default().visit_expr_mut(&mut e);
        let input = format!("{}", dump(&e));
        let mut v = SortTerms::default();
        v.visit_expr_mut(&mut e);
        let output = format!("{}", dump(&e));
        assert_eq!(output, expected);
        assert_eq!(v.modified, input != output);
    }

    test("1 + x", "(Plus 1 x)");
    test("x + 1", "(Plus 1 x)");
    test("x + 2x", "(Plus x (Times 2 x))");
    test("2x + x", "(Plus x (Times 2 x))");
    test("2 x", "(Times 2 x)");
    test("x 2", "(Times 2 x)");
    test("x x^2", "(Times x (Pow x 2))");
    test("x^2 x", "(Times x (Pow x 2))");
    test("x x^-1", "(Times (Pow x -1) x)");
    test("x^-1 x", "(Times (Pow x -1) x)");

    test("x y", "(Times x y)");
    test("y x", "(Times x y)");

    test("y z + x y z", "(Plus (Times y z) (Times x y z))");
    test("x y z + y z", "(Plus (Times y z) (Times x y z))");
}

#[test]
fn transform() {
    fn test(input: &str, expected: &str) {
        let mut e = parse_expr(input);
        PreTransform.visit_expr_mut(&mut e);
        Flatten::default().visit_expr_mut(&mut e);
        FoldConstant::default().visit_expr_mut(&mut e);
        Flatten::default().visit_expr_mut(&mut e);
        let input = format!("{}", dump(&e));
        let mut v = Transform::default();
        v.visit_expr_mut(&mut e);
        FoldConstant::default().visit_expr_mut(&mut e);
        Flatten::default().visit_expr_mut(&mut e);
        let output = format!("{}", dump(&e));
        assert_eq!(output, expected);
        assert_eq!(v.modified, input != output);
    }

    test("0 + x", "x");
    test("x + x", "(Times 2 x)");
    test("x + 2x", "(Times 3 x)");
    test("2x + 3x", "(Times 5 x)");
    test("x y + x y", "(Times 2 x y)");
    test("x y + 2x y", "(Times 3 x y)");
    test("2x y + 3x y", "(Times 5 x y)");

    test("0 sqrt(x)", "(Times 0 (Pow x 0.5))");
    test("1 x", "x");

    test("x x", "(Pow x 2)");
    test("x x^2", "(Pow x 3)");
    test("x^2 x^3", "(Pow x 5)");
    test("x^-2 x^-3", "(Pow x -5)");
    test("x^-2 x^3", "(Times (Pow x -2) (Pow x 3))");
    test("x^2 x^2", "(Pow x 4)");
    test("sqrt(x) sqrt(x)", "(Pow (Pow x 0.5) 2)");

    test("!(x = y)", "(Neq x y)");
    test("!(x ≤ y)", "(Nle x y)");
    test("!(x < y)", "(Nlt x y)");
    test("!(x ≥ y)", "(Nge x y)");
    test("!(x > y)", "(Ngt x y)");
    test("!!(x = y)", "(Eq x y)");
    test("!!(x ≤ y)", "(Le x y)");
    test("!!(x < y)", "(Lt x y)");
    test("!!(x ≥ y)", "(Ge x y)");
    test("!!(x > y)", "(Gt x y)");
    test("!(x = y && y = z)", "(Or (Not (Eq x y)) (Not (Eq y z)))");
    test("!(x = y || y = z)", "(And (Not (Eq x y)) (Not (Eq y z)))");
}

#[test]
fn post_transform() {
    fn test(input: &str, expected: &str) {
        let mut e = parse_expr(input);
        PreTransform.visit_expr_mut(&mut e);
        Flatten::default().visit_expr_mut(&mut e);
        FoldConstant::default().visit_expr_mut(&mut e);
        Flatten::default().visit_expr_mut(&mut e);
        PostTransform.visit_expr_mut(&mut e);
        assert_eq!(format!("{}", dump(&e)), expected);
    }

    test("2^x", "(Exp2 x)");
    test("10^x", "(Exp10 x)");
    test("x^-1", "(Recip x)");
    test("x^0", "(One x)");
    test("x^1", "x");
    test("x^2", "(Sqr x)");
    test("x^3", "(Pown x 3)");
    test("x^(1/2)", "(Sqrt x)");
    test("x^(3/2)", "(Pown (Sqrt x) 3)");
    test("x^(-2/3)", "(Pown (Rootn x 3) -2)");
    test("x^(-1/3)", "(Recip (Rootn x 3))");
    test("x^(1/3)", "(Rootn x 3)");
    test("x^(2/3)", "(Sqr (Rootn x 3))");
    test("x + y", "(Add x y)");
    test("x + y + z", "(Add (Add x y) z)");
    test("x y", "(Mul x y)");
    test("x y z", "(Mul (Mul x y) z)");
}

#[test]
fn update_polar_period() {
    fn test(input: &str, expected_period: Option<u64>) {
        let mut e = parse_expr(input);
        PreTransform.visit_expr_mut(&mut e);
        Flatten::default().visit_expr_mut(&mut e);
        SortTerms::default().visit_expr_mut(&mut e);
        FoldConstant::default().visit_expr_mut(&mut e);
        UpdatePolarPeriod.visit_expr_mut(&mut e);
        assert_eq!(e.polar_period, expected_period, "{input}");
    }

    test("42", Some(0));
    test("x", Some(0));
    test("y", Some(0));
    test("r", Some(0));
    test("θ", None);
    test("sin(θ)", Some(1));
    test("cos(θ)", Some(1));
    test("tan(θ)", Some(1));
    test("sin(3/5θ)", Some(5));
    test("sqrt(sin(θ))", Some(1));
    test("sin(θ) + θ", None);
    test("min(sin(θ), θ)", None);
    test("r = sin(θ)", Some(1));
    test("sin(3θ/5)", Some(5));
    test("sin(θ/2) + cos(θ/3)", Some(6));
    test("min(sin(θ/2), cos(θ/3))", Some(6));
}

#[test]
fn term_order() {
    // constants come first, then variables by name, then larger terms;
    // swapping the operands flips the sign
    let one = Expr::one();
    let x = Expr::var("x".to_string());
    let y = Expr::var("y".to_string());
    assert_eq!(cmp_terms(&one, &x), -1);
    assert_eq!(cmp_terms(&x, &one), 1);
    assert_eq!(cmp_terms(&x, &y), -1);
    assert_eq!(cmp_terms(&y, &x), 1);
    assert_eq!(cmp_terms(&x, &Expr::var("x".to_string())), 0);
    let x2 = Expr::binary(
        BinaryOp::Pow,
        Box::new(Expr::var("x".to_string())),
        Box::new(Expr::two()),
    );
    assert_eq!(cmp_terms(&x, &x2), -1);
    assert_eq!(cmp_terms(&x2, &x), 1);
}

struct VarToFive;

impl graphing::RewriteRule for VarToFive {
    fn apply(&mut self, e: &Expr) -> Option<Expr> {
        match &e.kind {
            ExprKind::Var(_) => Some(num(5)),
            _ => None,
        }
    }
}

#[test]
fn replace_all_rewrites_bottom_up() {
    let mut e = Expr::nary(
        NaryOp::Plus,
        vec![Expr::var("x".to_string()), num(1), Expr::var("y".to_string())],
    );
    let mut v = graphing::ReplaceAll::new(VarToFive);
    v.visit_expr_mut(&mut e);
    assert!(v.modified);
    match &e.kind {
        ExprKind::Nary(NaryOp::Plus, xs) => {
            assert_eq!(xs.len(), 3);
            assert!(matches!(&xs[0].kind, ExprKind::Constant(q) if q.num == 5 && q.den == 1));
            assert!(matches!(&xs[1].kind, ExprKind::Constant(q) if q.num == 1 && q.den == 1));
            assert!(matches!(&xs[2].kind, ExprKind::Constant(q) if q.num == 5 && q.den == 1));
        }
        k => panic!("unexpected kind {k:?}"),
    }
    let mut untouched = num(3);
    let mut v2 = graphing::ReplaceAll::new(VarToFive);
    v2.visit_expr_mut(&mut untouched);
    assert!(!v2.modified);
    assert!(matches!(&untouched.kind, ExprKind::Constant(q) if q.num == 3 && q.den == 1));
}
