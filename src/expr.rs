//! Symbolic expressions over integer inputs: evaluation under a model, and a
//! canonical form that makes structurally equal expressions compare equal.
use vstd::prelude::*;

verus! {

/// Binary operators. Comparisons and connectives yield `1` for true and `0`
/// for false; any non-zero operand counts as true.
#[derive(Clone, Copy, Debug, PartialEq, Eq, Structural)]
pub enum BinOp {
    Add,
    Sub,
    Mul,
    Div,
    Rem,
    Eq,
    Ne,
    Lt,
    Le,
    Gt,
    Ge,
    And,
    Or,
}

/// An integer-valued symbolic expression. `Var(i)` is the `i`-th declared input.
#[derive(Debug)]
pub enum Expr {
    Int(i64),
    Var(usize),
    Bin(BinOp, Box<Expr>, Box<Expr>),
    Not(Box<Expr>),
}

/// The value of an expression under a model, or the fault that stopped it.
#[derive(Clone, Copy, Debug, PartialEq, Eq, Structural)]
pub enum Evaluation {
    Value(i64),
    DivisionByZero,
    Overflow,
    UnboundVariable,
}

pub open spec fn truth(b: bool) -> i64 {
    if b { 1 } else { 0 }
}

pub open spec fn checked(r: Option<i64>) -> Evaluation {
    match r {
        Some(v) => Evaluation::Value(v),
        None => Evaluation::Overflow,
    }
}

/// What `a op b` evaluates to.
pub open spec fn apply(op: BinOp, a: i64, b: i64) -> Evaluation {
    match op {
        BinOp::Add => checked(a.checked_add(b)),
        BinOp::Sub => checked(a.checked_sub(b)),
        BinOp::Mul => checked(a.checked_mul(b)),
        BinOp::Div => if b == 0 { Evaluation::DivisionByZero } else { checked(a.checked_div(b)) },
        BinOp::Rem => if b == 0 { Evaluation::DivisionByZero } else { checked(a.checked_rem(b)) },
        BinOp::Eq => Evaluation::Value(truth(a == b)),
        BinOp::Ne => Evaluation::Value(truth(a != b)),
        BinOp::Lt => Evaluation::Value(truth(a < b)),
        BinOp::Le => Evaluation::Value(truth(a <= b)),
        BinOp::Gt => Evaluation::Value(truth(a > b)),
        BinOp::Ge => Evaluation::Value(truth(a >= b)),
        BinOp::And => Evaluation::Value(truth(a != 0 && b != 0)),
        BinOp::Or => Evaluation::Value(truth(a != 0 || b != 0)),
    }
}

/// How serious a fault is: when both operands fault, the graver fault is
/// the result, whatever the operands' order.
pub open spec fn gravity(f: Evaluation) -> int {
    match f {
        Evaluation::Value(_) => 0,
        Evaluation::Overflow => 1,
        Evaluation::DivisionByZero => 2,
        Evaluation::UnboundVariable => 3,
    }
}

/// `a op b` on evaluated operands: `apply` when both have values, else the
/// graver of their faults.
pub open spec fn combine(op: BinOp, a: Evaluation, b: Evaluation) -> Evaluation {
    if a is Value && b is Value {
        apply(op, a->Value_0, b->Value_0)
    } else if gravity(a) >= gravity(b) {
        a
    } else {
        b
    }
}

/// Evaluates both operands of every operator; a fault in an operand is the
/// result, the graver one when both fault.
pub open spec fn eval(e: Expr, m: Seq<i64>) -> Evaluation
    decreases e,
{
    match e {
        Expr::Int(v) => Evaluation::Value(v),
        Expr::Var(i) => if i < m.len() { Evaluation::Value(m[i as int]) } else { Evaluation::UnboundVariable },
        Expr::Bin(op, l, r) => combine(op, eval(*l, m), eval(*r, m)),
        Expr::Not(x) => match eval(*x, m) {
            Evaluation::Value(a) => Evaluation::Value(truth(a == 0)),
            f => f,
        },
    }
}

/// Every variable of `e` is below `n`.
pub open spec fn scoped(e: Expr, n: nat) -> bool
    decreases e,
{
    match e {
        Expr::Int(_) => true,
        Expr::Var(i) => i < n,
        Expr::Bin(_, l, r) => scoped(*l, n) && scoped(*r, n),
        Expr::Not(x) => scoped(*x, n),
    }
}

pub open spec fn cmp_int(a: int, b: int) -> int {
    if a < b { -1 } else if a == b { 0 } else { 1 }
}

pub open spec fn op_rank(op: BinOp) -> int {
    match op {
        BinOp::Add => 0,
        BinOp::Sub => 1,
        BinOp::Mul => 2,
        BinOp::Div => 3,
        BinOp::Rem => 4,
        BinOp::Eq => 5,
        BinOp::Ne => 6,
        BinOp::Lt => 7,
        BinOp::Le => 8,
        BinOp::Gt => 9,
        BinOp::Ge => 10,
        BinOp::And => 11,
        BinOp::Or => 12,
    }
}

pub open spec fn shape_rank(e: Expr) -> int {
    match e {
        Expr::Int(_) => 0,
        Expr::Var(_) => 1,
        Expr::Bin(..) => 2,
        Expr::Not(_) => 3,
    }
}

/// A total order on expressions: `-1`, `0` or `1`.
pub open spec fn order(a: Expr, b: Expr) -> int
    decreases a,
{
    match a {
        Expr::Int(x) => match b {
            Expr::Int(y) => cmp_int(x as int, y as int),
            _ => cmp_int(shape_rank(a), shape_rank(b)),
        },
        Expr::Var(x) => match b {
            Expr::Var(y) => cmp_int(x as int, y as int),
            _ => cmp_int(shape_rank(a), shape_rank(b)),
        },
        Expr::Bin(o1, l1, r1) => match b {
            Expr::Bin(o2, l2, r2) => if o1 != o2 {
                cmp_int(op_rank(o1), op_rank(o2))
            } else if order(*l1, *l2) != 0 {
                order(*l1, *l2)
            } else {
                order(*r1, *r2)
            },
            _ => cmp_int(shape_rank(a), shape_rank(b)),
        },
        Expr::Not(x) => match b {
            Expr::Not(y) => order(*x, *y),
            _ => cmp_int(shape_rank(a), shape_rank(b)),
        },
    }
}

pub open spec fn commutative(op: BinOp) -> bool {
    match op {
        BinOp::Add | BinOp::Mul | BinOp::Eq | BinOp::Ne | BinOp::And | BinOp::Or => true,
        _ => false,
    }
}

/// Canonical node for `x op y` with both operands already canonical:
/// two literals are folded unless evaluation faults, `>` and `>=` become
/// `<` and `<=` with the operands swapped, and the operands of a
/// commutative operator are put in `order`.
pub open spec fn mk_bin(op: BinOp, x: Expr, y: Expr) -> Expr {
    if x is Int && y is Int && apply(op, x->Int_0, y->Int_0) is Value {
        Expr::Int(apply(op, x->Int_0, y->Int_0)->Value_0)
    } else if op == BinOp::Gt {
        Expr::Bin(BinOp::Lt, Box::new(y), Box::new(x))
    } else if op == BinOp::Ge {
        Expr::Bin(BinOp::Le, Box::new(y), Box::new(x))
    } else if commutative(op) && order(x, y) > 0 {
        Expr::Bin(op, Box::new(y), Box::new(x))
    } else {
        Expr::Bin(op, Box::new(x), Box::new(y))
    }
}

pub open spec fn mk_not(x: Expr) -> Expr {
    match x {
        Expr::Int(a) => Expr::Int(truth(a == 0)),
        _ => Expr::Not(Box::new(x)),
    }
}

/// The canonical form of `e`, built bottom-up.
pub open spec fn norm(e: Expr) -> Expr
    decreases e,
{
    match e {
        Expr::Bin(op, l, r) => mk_bin(op, norm(*l), norm(*r)),
        Expr::Not(x) => mk_not(norm(*x)),
        _ => e,
    }
}

proof fn lemma_order(a: Expr, b: Expr)
    ensures
        order(a, b) == -order(b, a),
        order(a, b) == 0 <==> a == b,
        -1 <= order(a, b) <= 1,
    decreases a,
{
    match a {
        Expr::Bin(o1, l1, r1) => match b {
            Expr::Bin(o2, l2, r2) => {
                lemma_order(*l1, *l2);
                lemma_order(*r1, *r2);
                if o1 != o2 {
                    assert(op_rank(o1) != op_rank(o2));
                }
            },
            _ => {},
        },
        Expr::Not(x) => match b {
            Expr::Not(y) => {
                lemma_order(*x, *y);
            },
            _ => {},
        },
        _ => {},
    }
}

proof fn lemma_apply_symmetric(op: BinOp, a: i64, b: i64)
    requires
        commutative(op),
    ensures
        apply(op, a, b) == apply(op, b, a),
{
    if op == BinOp::Mul {
        assert(a * b == b * a) by (nonlinear_arith);
    }
}

/// Canonicalising a canonical expression changes nothing.
pub proof fn lemma_normalize_idempotent(e: Expr)
    ensures
        norm(norm(e)) == norm(e),
    decreases e,
{
    match e {
        Expr::Bin(op, l, r) => {
            lemma_normalize_idempotent(*l);
            lemma_normalize_idempotent(*r);
            let x = norm(*l);
            let y = norm(*r);
            lemma_order(x, y);
            if x is Int && y is Int && commutative(op) {
                lemma_apply_symmetric(op, x->Int_0, y->Int_0);
            }
        },
        Expr::Not(x) => {
            lemma_normalize_idempotent(*x);
        },
        _ => {},
    }
}

/// The canonical form of `a op b` is that of `b op a` for every
/// commutative operator (`+`, `*`, `==`, `!=`, `&&`, `||`).
pub proof fn lemma_normalize_commutative(op: BinOp, a: Expr, b: Expr)
    requires
        commutative(op),
    ensures
        norm(Expr::Bin(op, Box::new(a), Box::new(b))) == norm(Expr::Bin(op, Box::new(b), Box::new(a))),
{
    let x = norm(a);
    let y = norm(b);
    lemma_order(x, y);
    if x is Int && y is Int {
        lemma_apply_symmetric(op, x->Int_0, y->Int_0);
    }
}

/// Canonicalising keeps what every expression evaluates to, faults
/// included, under every model.
pub proof fn lemma_normalize_preserves_value(e: Expr, m: Seq<i64>)
    ensures
        eval(norm(e), m) == eval(e, m),
    decreases e,
{
    match e {
        Expr::Bin(op, l, r) => {
            lemma_normalize_preserves_value(*l, m);
            lemma_normalize_preserves_value(*r, m);
            let a = eval(*l, m);
            let b = eval(*r, m);
            if commutative(op) && a is Value && b is Value {
                lemma_apply_symmetric(op, a->Value_0, b->Value_0);
            }
        },
        Expr::Not(x) => {
            lemma_normalize_preserves_value(*x, m);
        },
        _ => {},
    }
}

/// Regrouping a sum changes what it evaluates to: at `x0 = 1`, `x1 = MAX`,
/// `x2 = -1`, `(x0 + x1) + x2` overflows while `x0 + (x1 + x2)` is `MAX`.
/// Each operation is checked in `i64`, as in the programs being compared,
/// so no canonical form can both merge the two groupings and keep the value
/// of each; `normalize` keeps the value and leaves the grouping.
pub proof fn lemma_grouping_matters()
    ensures
        ({
            let m = seq![1i64, i64::MAX, -1i64];
            let left = Expr::Bin(BinOp::Add, Box::new(Expr::Bin(BinOp::Add, Box::new(Expr::Var(0)),
                Box::new(Expr::Var(1)))), Box::new(Expr::Var(2)));
            let right = Expr::Bin(BinOp::Add, Box::new(Expr::Var(0)), Box::new(Expr::Bin(BinOp::Add,
                Box::new(Expr::Var(1)), Box::new(Expr::Var(2)))));
            eval(left, m) == Evaluation::Overflow && eval(right, m) == Evaluation::Value(i64::MAX)
        }),
{
    let m = seq![1i64, i64::MAX, -1i64];
    let x0 = Expr::Var(0);
    let x1 = Expr::Var(1);
    let x2 = Expr::Var(2);
    assert(eval(x0, m) == Evaluation::Value(1i64));
    assert(eval(x1, m) == Evaluation::Value(i64::MAX));
    assert(eval(x2, m) == Evaluation::Value(-1i64));
    let inner_left = Expr::Bin(BinOp::Add, Box::new(x0), Box::new(x1));
    let inner_right = Expr::Bin(BinOp::Add, Box::new(x1), Box::new(x2));
    assert(eval(inner_left, m) == apply(BinOp::Add, 1i64, i64::MAX));
    assert(apply(BinOp::Add, 1i64, i64::MAX) == Evaluation::Overflow);
    assert(eval(inner_right, m) == Evaluation::Value((i64::MAX - 1) as i64));
    assert(apply(BinOp::Add, 1i64, (i64::MAX - 1) as i64) == Evaluation::Value(i64::MAX));
    assert(eval(Expr::Bin(BinOp::Add, Box::new(inner_left), Box::new(x2)), m) == Evaluation::Overflow);
    assert(eval(Expr::Bin(BinOp::Add, Box::new(x0), Box::new(inner_right)), m) == Evaluation::Value(i64::MAX));
}

fn op_rank_exec(op: BinOp) -> (r: u8)
    ensures
        r as int == op_rank(op),
{
    match op {
        BinOp::Add => 0,
        BinOp::Sub => 1,
        BinOp::Mul => 2,
        BinOp::Div => 3,
        BinOp::Rem => 4,
        BinOp::Eq => 5,
        BinOp::Ne => 6,
        BinOp::Lt => 7,
        BinOp::Le => 8,
        BinOp::Gt => 9,
        BinOp::Ge => 10,
        BinOp::And => 11,
        BinOp::Or => 12,
    }
}

fn shape_rank_exec(e: &Expr) -> (r: i8)
    ensures
        r as int == shape_rank(*e),
{
    match e {
        Expr::Int(_) => 0,
        Expr::Var(_) => 1,
        Expr::Bin(..) => 2,
        Expr::Not(_) => 3,
    }
}

fn cmp_exec(a: i128, b: i128) -> (r: i8)
    ensures
        r as int == cmp_int(a as int, b as int),
{
    if a < b { -1 } else if a == b { 0 } else { 1 }
}

/// Compares two expressions in the total order used by `normalize`.
pub fn compare(a: &Expr, b: &Expr) -> (r: i8)
    ensures
        r as int == order(*a, *b),
    decreases a,
{
    match a {
        Expr::Int(x) => {
            if let Expr::Int(y) = b {
                return cmp_exec(*x as i128, *y as i128);
            }
        },
        Expr::Var(x) => {
            if let Expr::Var(y) = b {
                return cmp_exec(*x as i128, *y as i128);
            }
        },
        Expr::Bin(o1, l1, r1) => {
            if let Expr::Bin(o2, l2, r2) = b {
                if *o1 != *o2 {
                    return cmp_exec(op_rank_exec(*o1) as i128, op_rank_exec(*o2) as i128);
                }
                let c = compare(l1, l2);
                if c != 0 {
                    return c;
                }
                return compare(r1, r2);
            }
        },
        Expr::Not(x) => {
            if let Expr::Not(y) = b {
                return compare(x, y);
            }
        },
    }
    cmp_exec(shape_rank_exec(a) as i128, shape_rank_exec(b) as i128)
}

impl PartialEq for Expr {
    fn eq(&self, other: &Expr) -> (r: bool) {
        proof {
            lemma_order(*self, *other);
        }
        compare(self, other) == 0
    }
}

impl vstd::std_specs::cmp::PartialEqSpecImpl for Expr {
    open spec fn obeys_eq_spec() -> bool {
        true
    }

    open spec fn eq_spec(&self, other: &Expr) -> bool {
        *self == *other
    }
}

fn apply_exec(op: BinOp, a: i64, b: i64) -> (r: Evaluation)
    ensures
        r == apply(op, a, b),
{
    let folded = match op {
        BinOp::Add => a.checked_add(b),
        BinOp::Sub => a.checked_sub(b),
        BinOp::Mul => a.checked_mul(b),
        BinOp::Div => {
            if b == 0 {
                return Evaluation::DivisionByZero;
            }
            a.checked_div(b)
        },
        BinOp::Rem => {
            if b == 0 {
                return Evaluation::DivisionByZero;
            }
            a.checked_rem(b)
        },
        BinOp::Eq => Some(if a == b { 1 } else { 0 }),
        BinOp::Ne => Some(if a != b { 1 } else { 0 }),
        BinOp::Lt => Some(if a < b { 1 } else { 0 }),
        BinOp::Le => Some(if a <= b { 1 } else { 0 }),
        BinOp::Gt => Some(if a > b { 1 } else { 0 }),
        BinOp::Ge => Some(if a >= b { 1 } else { 0 }),
        BinOp::And => Some(if a != 0 && b != 0 { 1 } else { 0 }),
        BinOp::Or => Some(if a != 0 || b != 0 { 1 } else { 0 }),
    };
    match folded {
        Some(v) => Evaluation::Value(v),
        None => Evaluation::Overflow,
    }
}

fn gravity_exec(f: Evaluation) -> (r: u8)
    ensures
        r as int == gravity(f),
{
    match f {
        Evaluation::Value(_) => 0,
        Evaluation::Overflow => 1,
        Evaluation::DivisionByZero => 2,
        Evaluation::UnboundVariable => 3,
    }
}

/// Evaluates `e` under `model`, where `model[i]` is the value of input `i`.
pub fn substitute(e: &Expr, model: &Vec<i64>) -> (r: Evaluation)
    ensures
        r == eval(*e, model@),
    decreases e,
{
    match e {
        Expr::Int(v) => Evaluation::Value(*v),
        Expr::Var(i) => {
            if *i < model.len() {
                Evaluation::Value(model[*i])
            } else {
                Evaluation::UnboundVariable
            }
        },
        Expr::Bin(op, l, r) => {
            let a = substitute(l, model);
            let b = substitute(r, model);
            match (a, b) {
                (Evaluation::Value(a), Evaluation::Value(b)) => apply_exec(*op, a, b),
                _ => if gravity_exec(a) >= gravity_exec(b) { a } else { b },
            }
        },
        Expr::Not(x) => match substitute(x, model) {
            Evaluation::Value(a) => Evaluation::Value(if a == 0 { 1 } else { 0 }),
            f => f,
        },
    }
}

/// Whether every variable of `e` is below `n`.
pub fn is_scoped(e: &Expr, n: usize) -> (r: bool)
    ensures
        r == scoped(*e, n as nat),
    decreases e,
{
    match e {
        Expr::Int(_) => true,
        Expr::Var(i) => *i < n,
        Expr::Bin(_, l, r) => is_scoped(l, n) && is_scoped(r, n),
        Expr::Not(x) => is_scoped(x, n),
    }
}

fn make_bin(op: BinOp, x: Expr, y: Expr) -> (r: Expr)
    ensures
        r == mk_bin(op, x, y),
{
    if let Expr::Int(a) = x {
        if let Expr::Int(b) = y {
            if let Evaluation::Value(v) = apply_exec(op, a, b) {
                return Expr::Int(v);
            }
        }
    }
    if op == BinOp::Gt {
        Expr::Bin(BinOp::Lt, Box::new(y), Box::new(x))
    } else if op == BinOp::Ge {
        Expr::Bin(BinOp::Le, Box::new(y), Box::new(x))
    } else if (op == BinOp::Add || op == BinOp::Mul || op == BinOp::Eq || op == BinOp::Ne
        || op == BinOp::And || op == BinOp::Or) && compare(&x, &y) > 0 {
        Expr::Bin(op, Box::new(y), Box::new(x))
    } else {
        Expr::Bin(op, Box::new(x), Box::new(y))
    }
}

/// The canonical form of `e`: literal sub-expressions folded where they
/// evaluate without fault, `>`/`>=` turned into `<`/`<=`, and the operands
/// of commutative operators sorted.
/// The result evaluates as `e` does under every model
/// (`lemma_normalize_preserves_value`). Chains of `+` or `*` keep their
/// grouping: every operation is checked in `i64`, and `lemma_grouping_matters`
/// shows two groupings of one sum that evaluate differently, so merging them
/// would change a value.
pub fn normalize(e: &Expr) -> (r: Expr)
    ensures
        r == norm(*e),
    decreases e,
{
    match e {
        Expr::Int(v) => Expr::Int(*v),
        Expr::Var(i) => Expr::Var(*i),
        Expr::Bin(op, l, r) => {
            let x = normalize(l);
            let y = normalize(r);
            make_bin(*op, x, y)
        },
        Expr::Not(x) => {
            let n = normalize(x);
            match n {
                Expr::Int(a) => Expr::Int(if a == 0 { 1 } else { 0 }),
                _ => Expr::Not(Box::new(n)),
            }
        },
    }
}

} // verus!
