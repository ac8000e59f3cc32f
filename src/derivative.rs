use vstd::prelude::*;
use vstd::string::*;
use crate::ast::{
    Expr, Literal, Term, copy_tree, int_lit, lemma_terms_of_index, lemma_terms_of_len,
    lemma_terms_of_push, terms_of,
};
use crate::registry::{Func, func_arity, func_named, str_equal};

verus! {

/// The variable that derivatives are taken with respect to.
pub open spec fn variable() -> Seq<char> {
    "x"@
}

/// Whether the variable occurs in `t`.
pub open spec fn mentions_x(t: Term) -> bool
    decreases t,
{
    match t {
        Term::Eq(l, r) => mentions_x(*l) || mentions_x(*r),
        Term::Ne(l, r) => mentions_x(*l) || mentions_x(*r),
        Term::Lt(l, r) => mentions_x(*l) || mentions_x(*r),
        Term::Gt(l, r) => mentions_x(*l) || mentions_x(*r),
        Term::Le(l, r) => mentions_x(*l) || mentions_x(*r),
        Term::Ge(l, r) => mentions_x(*l) || mentions_x(*r),
        Term::Neg(a) => mentions_x(*a),
        Term::Add(l, r) => mentions_x(*l) || mentions_x(*r),
        Term::Sub(l, r) => mentions_x(*l) || mentions_x(*r),
        Term::Mul(l, r) => mentions_x(*l) || mentions_x(*r),
        Term::Div(l, r) => mentions_x(*l) || mentions_x(*r),
        Term::Mod(l, r) => mentions_x(*l) || mentions_x(*r),
        Term::Pow(l, r) => mentions_x(*l) || mentions_x(*r),
        Term::Call(_, args) => mentions_x_list(args),
        Term::Id(n) => n == variable(),
        Term::Lit(_) => false,
    }
}

pub open spec fn mentions_x_list(s: Seq<Term>) -> bool
    decreases s,
{
    if s.len() == 0 {
        false
    } else {
        mentions_x_list(s.subrange(0, s.len() - 1)) || mentions_x(s[s.len() - 1])
    }
}

pub open spec fn num(n: int) -> Term {
    Term::Lit(int_lit(n))
}

pub open spec fn call1(name: Seq<char>, a: Term) -> Term {
    Term::Call(name, seq![a])
}

pub open spec fn product(a: Term, b: Term) -> Term {
    Term::Mul(Box::new(a), Box::new(b))
}

pub open spec fn quotient(a: Term, b: Term) -> Term {
    Term::Div(Box::new(a), Box::new(b))
}

pub open spec fn sum_of(a: Term, b: Term) -> Term {
    Term::Add(Box::new(a), Box::new(b))
}

pub open spec fn difference(a: Term, b: Term) -> Term {
    Term::Sub(Box::new(a), Box::new(b))
}

pub open spec fn power(a: Term, b: Term) -> Term {
    Term::Pow(Box::new(a), Box::new(b))
}

/// A derivative under way: the derivative built so far and the correction
/// factors still to be multiplied in, or why there is none.
pub type Partial = Result<(Term, Seq<Term>), Seq<char>>;

/// Combines the derivatives of two operands with `f`; the corrections of
/// both are kept, the left operand's first.
pub open spec fn combine(a: Partial, b: Partial, f: spec_fn(Term, Term) -> Term) -> Partial {
    match a {
        Err(e) => Err(e),
        Ok((da, pa)) => match b {
            Err(e) => Err(e),
            Ok((db, pb)) => Ok((f(da, db), pa + pb)),
        },
    }
}

pub open spec fn cannot_call(n: Seq<char>) -> Seq<char> {
    "Cannot differentiate function "@ + n
}

pub open spec fn wrong_arity(n: Seq<char>) -> Seq<char> {
    "Wrong number of arguments for function "@ + n
}

/// Whether the derivative table has a rule for `f`.
pub open spec fn has_rule(f: Func) -> bool {
    f is Sin || f is Cos || f is Tan || f is Ln || f is Ln1p || f is Log2 || f is Log10 || f is Log
        || f is Sqrt || f is Cbrt || f is Exp || f is ExpM1 || f is Abs
}

/// The chain rule for a one-argument function `f` of `a`, whose derivative
/// is `d`. The absolute value keeps `d` and adds the factor `a / abs(a)`.
pub open spec fn unary_rule(f: Func, a: Term, d: Term, p: Seq<Term>) -> (Term, Seq<Term>) {
    match f {
        Func::Sin => (product(call1("cos"@, a), d), p),
        Func::Cos => (product(Term::Neg(Box::new(call1("sin"@, a))), d), p),
        Func::Tan => (quotient(d, power(call1("cos"@, a), num(2))), p),
        Func::Ln => (quotient(d, a), p),
        Func::Ln1p => (quotient(d, sum_of(a, num(1))), p),
        Func::Log2 => (quotient(d, product(a, call1("ln"@, num(2)))), p),
        Func::Log10 => (quotient(d, product(a, call1("ln"@, num(10)))), p),
        Func::Sqrt => (quotient(d, product(num(2), call1("sqrt"@, a))), p),
        Func::Cbrt => (quotient(d, product(num(3), power(call1("cbrt"@, a), num(2)))), p),
        Func::Exp => (product(call1("exp"@, a), d), p),
        Func::ExpM1 => (product(call1("exp"@, a), d), p),
        _ => (d, p.push(quotient(a, call1("abs"@, a)))),
    }
}

/// `log(a, b)` as `ln(a) / ln(b)`, by the quotient rule.
pub open spec fn log_rule(a: Term, b: Term, da: Term, db: Term) -> Term {
    quotient(
        difference(product(quotient(da, a), call1("ln"@, b)), product(call1("ln"@, a), quotient(db, b))),
        power(call1("ln"@, b), num(2)),
    )
}

/// The power rule, split by where the variable occurs.
pub open spec fn pow_derivative(f: Term, g: Term, df: Partial, dg: Partial) -> Partial {
    if !mentions_x(f) && !mentions_x(g) {
        Ok((num(0), seq![]))
    } else if !mentions_x(g) {
        match df {
            Err(e) => Err(e),
            Ok((d, p)) => Ok((product(product(g, power(f, difference(g, num(1)))), d), p)),
        }
    } else if !mentions_x(f) {
        match dg {
            Err(e) => Err(e),
            Ok((d, p)) => Ok((product(product(power(f, g), call1("ln"@, f)), d), p)),
        }
    } else {
        combine(
            df,
            dg,
            |a: Term, b: Term| product(sum_of(product(b, call1("ln"@, f)), product(g, quotient(a, f))), power(f, g)),
        )
    }
}

/// The derivative of `t` with respect to the variable, with the correction
/// factors that absolute values leave, or why `t` has none.
pub open spec fn derive(t: Term) -> Partial
    decreases t,
{
    match t {
        Term::Eq(_, _) => Err("Cannot differentiate an equality expression"@),
        Term::Ne(_, _) => Err("Cannot differentiate an inequality expression"@),
        Term::Lt(_, _) => Err("Cannot differentiate a less than expression"@),
        Term::Gt(_, _) => Err("Cannot differentiate a greater than expression"@),
        Term::Le(_, _) => Err("Cannot differentiate a less than or equal expression"@),
        Term::Ge(_, _) => Err("Cannot differentiate a greater than or equal expression"@),
        Term::Mod(_, _) => Err("Cannot differentiate a modulo expression"@),
        Term::Lit(_) => Ok((num(0), seq![])),
        Term::Id(n) => Ok((if n == variable() { num(1) } else { num(0) }, seq![])),
        Term::Neg(a) => match derive(*a) {
            Err(e) => Err(e),
            Ok((d, p)) => Ok((Term::Neg(Box::new(d)), p)),
        },
        Term::Add(f, g) => combine(derive(*f), derive(*g), |a: Term, b: Term| sum_of(a, b)),
        Term::Sub(f, g) => combine(derive(*f), derive(*g), |a: Term, b: Term| difference(a, b)),
        Term::Mul(f, g) => combine(
            derive(*f),
            derive(*g),
            |a: Term, b: Term| sum_of(product(a, *g), product(*f, b)),
        ),
        Term::Div(f, g) => combine(
            derive(*f),
            derive(*g),
            |a: Term, b: Term| quotient(difference(product(a, *g), product(*f, b)), power(*g, num(2))),
        ),
        Term::Pow(f, g) => pow_derivative(*f, *g, derive(*f), derive(*g)),
        Term::Call(n, args) => match func_named(n) {
            None => Err(cannot_call(n)),
            Some(f) => if !has_rule(f) {
                Err(cannot_call(n))
            } else if args.len() != func_arity(f) {
                Err(wrong_arity(n))
            } else if f is Log {
                combine(
                    derive(args[0]),
                    derive(args[1]),
                    |a: Term, b: Term| log_rule(args[0], args[1], a, b),
                )
            } else {
                match derive(args[0]) {
                    Err(e) => Err(e),
                    Ok((d, p)) => Ok(unary_rule(f, args[0], d, p)),
                }
            },
        },
    }
}

/// `d` multiplied by each of the factors `p`, in order.
pub open spec fn apply_corrections(d: Term, p: Seq<Term>) -> Term
    decreases p.len(),
{
    if p.len() == 0 {
        d
    } else {
        product(apply_corrections(d, p.subrange(0, p.len() - 1)), p[p.len() - 1])
    }
}

/// The derivative of `t` with respect to `x`, or why it has none.
pub open spec fn differentiate(t: Term) -> Result<Term, Seq<char>> {
    match derive(t) {
        Ok((d, p)) => Ok(apply_corrections(d, p)),
        Err(e) => Err(e),
    }
}

/// Whether the variable occurs in `e`.
pub fn mentions_variable(e: &Expr) -> (r: bool)
    ensures
        r == mentions_x(e@),
    decreases e,
{
    match e {
        Expr::Eq(l, r) | Expr::Ne(l, r) | Expr::Lt(l, r) | Expr::Gt(l, r) | Expr::Le(l, r) | Expr::Ge(
            l,
            r,
        ) | Expr::Add(l, r) | Expr::Sub(l, r) | Expr::Mul(l, r) | Expr::Div(l, r) | Expr::Mod(l, r)
        | Expr::Pow(l, r) => mentions_variable(l) || mentions_variable(r),
        Expr::Neg(a) => mentions_variable(a),
        Expr::Call(_, args) => mentions_variable_in(args),
        Expr::Id(name) => str_equal(name.as_str(), "x"),
        Expr::Literal(_) => false,
    }
}

fn mentions_variable_in(args: &Vec<Expr>) -> (r: bool)
    ensures
        r == mentions_x_list(terms_of(args@)),
    decreases args,
{
    let ghost ts = terms_of(args@);
    proof {
        lemma_terms_of_len(args@);
    }
    let mut i: usize = 0;
    while i < args.len()
        invariant
            ts == terms_of(args@),
            ts.len() == args@.len(),
            i <= args@.len(),
            !mentions_x_list(ts.subrange(0, i as int)),
        decreases args@.len() - i,
    {
        proof {
            lemma_terms_of_index(args@, i as int);
            let p = ts.subrange(0, i + 1);
            assert(p.subrange(0, i as int) =~= ts.subrange(0, i as int));
        }
        assert(decreases_to!(args => args@[i as int]));
        if mentions_variable(&args[i]) {
            proof {
                lemma_mentions_prefix(ts, i + 1);
            }
            return true;
        }
        i = i + 1;
    }
    assert(ts.subrange(0, i as int) =~= ts);
    false
}

proof fn lemma_mentions_prefix(s: Seq<Term>, i: int)
    requires
        0 <= i <= s.len(),
        mentions_x_list(s.subrange(0, i)),
    ensures
        mentions_x_list(s),
    decreases s.len() - i,
{
    if i < s.len() {
        let p = s.subrange(0, i + 1);
        assert(p.subrange(0, i) =~= s.subrange(0, i));
        lemma_mentions_prefix(s, i + 1);
    } else {
        assert(s.subrange(0, i) =~= s);
    }
}

fn lit(n: i64) -> (r: Expr)
    ensures
        r@ == num(n as int),
{
    Expr::Literal(Literal::integer(n))
}

fn call_of(name: &str, a: Expr) -> (r: Expr)
    ensures
        r@ == call1(name@, a@),
{
    let mut args: Vec<Expr> = Vec::new();
    proof {
        lemma_terms_of_push(args@, a);
        assert(terms_of(args@) =~= Seq::<Term>::empty());
    }
    args.push(a);
    assert(terms_of(args@) =~= seq![a@]);
    Expr::Call(String::from_str(name), args)
}

fn message(prefix: &str, name: &str) -> (r: String)
    ensures
        r@ == prefix@ + name@,
{
    let mut s = String::from_str(prefix);
    s.append(name);
    s
}

fn has_derivative_rule(f: Func) -> (r: bool)
    ensures
        r == has_rule(f),
{
    match f {
        Func::Sin | Func::Cos | Func::Tan | Func::Ln | Func::Ln1p | Func::Log2 | Func::Log10
        | Func::Log | Func::Sqrt | Func::Cbrt | Func::Exp | Func::ExpM1 | Func::Abs => true,
        _ => false,
    }
}

/// The chain rule for the one-argument function `f` of `a`, whose derivative
/// is `d`. The absolute value keeps `d`; its correction factor is left to the
/// caller.
fn unary_term(f: Func, a: &Expr, d: Expr) -> (r: Expr)
    requires
        has_rule(f),
        !(f is Log),
    ensures
        r@ == unary_rule(f, a@, d@, seq![]).0,
{
    proof {
        reveal_with_fuel(crate::ast::term_of, 4);
    }
    match f {
        Func::Sin => Expr::Mul(Box::new(call_of("cos", copy_tree(a))), Box::new(d)),
        Func::Cos => Expr::Mul(
            Box::new(Expr::Neg(Box::new(call_of("sin", copy_tree(a))))),
            Box::new(d),
        ),
        Func::Tan => Expr::Div(
            Box::new(d),
            Box::new(Expr::Pow(Box::new(call_of("cos", copy_tree(a))), Box::new(lit(2)))),
        ),
        Func::Ln => Expr::Div(Box::new(d), Box::new(copy_tree(a))),
        Func::Ln1p => Expr::Div(
            Box::new(d),
            Box::new(Expr::Add(Box::new(copy_tree(a)), Box::new(lit(1)))),
        ),
        Func::Log2 => Expr::Div(
            Box::new(d),
            Box::new(Expr::Mul(Box::new(copy_tree(a)), Box::new(call_of("ln", lit(2))))),
        ),
        Func::Log10 => Expr::Div(
            Box::new(d),
            Box::new(Expr::Mul(Box::new(copy_tree(a)), Box::new(call_of("ln", lit(10))))),
        ),
        Func::Sqrt => Expr::Div(
            Box::new(d),
            Box::new(Expr::Mul(Box::new(lit(2)), Box::new(call_of("sqrt", copy_tree(a))))),
        ),
        Func::Cbrt => Expr::Div(
            Box::new(d),
            Box::new(
                Expr::Mul(
                    Box::new(lit(3)),
                    Box::new(Expr::Pow(Box::new(call_of("cbrt", copy_tree(a))), Box::new(lit(2)))),
                ),
            ),
        ),
        Func::Exp | Func::ExpM1 => Expr::Mul(Box::new(call_of("exp", copy_tree(a))), Box::new(d)),
        _ => d,
    }
}

/// The correction factor `a / abs(a)` that the absolute value of `a` leaves.
fn abs_correction(a: &Expr) -> (r: Expr)
    ensures
        r@ == quotient(a@, call1("abs"@, a@)),
{
    Expr::Div(Box::new(copy_tree(a)), Box::new(call_of("abs", copy_tree(a))))
}

fn product_rule(f: &Expr, g: &Expr, df: Expr, dg: Expr) -> (r: Expr)
    ensures
        r@ == sum_of(product(df@, g@), product(f@, dg@)),
{
    proof {
        reveal_with_fuel(crate::ast::term_of, 3);
    }
    Expr::Add(
        Box::new(Expr::Mul(Box::new(df), Box::new(copy_tree(g)))),
        Box::new(Expr::Mul(Box::new(copy_tree(f)), Box::new(dg))),
    )
}

fn quotient_rule(f: &Expr, g: &Expr, df: Expr, dg: Expr) -> (r: Expr)
    ensures
        r@ == quotient(
            difference(product(df@, g@), product(f@, dg@)),
            power(g@, num(2)),
        ),
{
    proof {
        reveal_with_fuel(crate::ast::term_of, 4);
    }
    Expr::Div(
        Box::new(
            Expr::Sub(
                Box::new(Expr::Mul(Box::new(df), Box::new(copy_tree(g)))),
                Box::new(Expr::Mul(Box::new(copy_tree(f)), Box::new(dg))),
            ),
        ),
        Box::new(Expr::Pow(Box::new(copy_tree(g)), Box::new(lit(2)))),
    )
}

fn power_base_rule(f: &Expr, g: &Expr, df: Expr) -> (r: Expr)
    ensures
        r@ == product(product(g@, power(f@, difference(g@, num(1)))), df@),
{
    proof {
        reveal_with_fuel(crate::ast::term_of, 5);
    }
    Expr::Mul(
        Box::new(
            Expr::Mul(
                Box::new(copy_tree(g)),
                Box::new(
                    Expr::Pow(
                        Box::new(copy_tree(f)),
                        Box::new(Expr::Sub(Box::new(copy_tree(g)), Box::new(lit(1)))),
                    ),
                ),
            ),
        ),
        Box::new(df),
    )
}

fn power_exponent_rule(f: &Expr, g: &Expr, dg: Expr) -> (r: Expr)
    ensures
        r@ == product(product(power(f@, g@), call1("ln"@, f@)), dg@),
{
    proof {
        reveal_with_fuel(crate::ast::term_of, 4);
    }
    Expr::Mul(
        Box::new(
            Expr::Mul(
                Box::new(Expr::Pow(Box::new(copy_tree(f)), Box::new(copy_tree(g)))),
                Box::new(call_of("ln", copy_tree(f))),
            ),
        ),
        Box::new(dg),
    )
}

fn power_general_rule(f: &Expr, g: &Expr, df: Expr, dg: Expr) -> (r: Expr)
    ensures
        r@ == product(
            sum_of(product(dg@, call1("ln"@, f@)), product(g@, quotient(df@, f@))),
            power(f@, g@),
        ),
{
    proof {
        reveal_with_fuel(crate::ast::term_of, 5);
    }
    Expr::Mul(
        Box::new(
            Expr::Add(
                Box::new(Expr::Mul(Box::new(dg), Box::new(call_of("ln", copy_tree(f))))),
                Box::new(
                    Expr::Mul(
                        Box::new(copy_tree(g)),
                        Box::new(Expr::Div(Box::new(df), Box::new(copy_tree(f)))),
                    ),
                ),
            ),
        ),
        Box::new(Expr::Pow(Box::new(copy_tree(f)), Box::new(copy_tree(g)))),
    )
}

fn log_derivative(a: &Expr, b: &Expr, da: Expr, db: Expr) -> (r: Expr)
    ensures
        r@ == log_rule(a@, b@, da@, db@),
{
    proof {
        reveal_with_fuel(crate::ast::term_of, 5);
    }
    Expr::Div(
        Box::new(
            Expr::Sub(
                Box::new(
                    Expr::Mul(
                        Box::new(Expr::Div(Box::new(da), Box::new(copy_tree(a)))),
                        Box::new(call_of("ln", copy_tree(b))),
                    ),
                ),
                Box::new(
                    Expr::Mul(
                        Box::new(call_of("ln", copy_tree(a))),
                        Box::new(Expr::Div(Box::new(db), Box::new(copy_tree(b)))),
                    ),
                ),
            ),
        ),
        Box::new(Expr::Pow(Box::new(call_of("ln", copy_tree(b))), Box::new(lit(2)))),
    )
}

/// What `derive` says of `t`, held by the derivative `r` and the factors that
/// were appended to `pending`.
pub open spec fn derived(t: Term, r: Result<Expr, String>, before: Seq<Expr>, after: Seq<Expr>) -> bool {
    match derive(t) {
        Ok((d, p)) => r matches Ok(x) && x@ == d && terms_of(after) == terms_of(before) + p,
        Err(m) => r matches Err(s) && s@ == m,
    }
}

/// The derivative of `e` (see `derive`); the correction factors that it
/// leaves are appended to `pending`.
#[verifier::rlimit(100)]
pub fn derive_expr(e: &Expr, pending: &mut Vec<Expr>) -> (r: Result<Expr, String>)
    ensures
        derived(e@, r, old(pending)@, final(pending)@),
    decreases e,
{
    match e {
        Expr::Eq(_, _) => Err(String::from_str("Cannot differentiate an equality expression")),
        Expr::Ne(_, _) => Err(String::from_str("Cannot differentiate an inequality expression")),
        Expr::Lt(_, _) => Err(String::from_str("Cannot differentiate a less than expression")),
        Expr::Gt(_, _) => Err(String::from_str("Cannot differentiate a greater than expression")),
        Expr::Le(_, _) => Err(String::from_str("Cannot differentiate a less than or equal expression")),
        Expr::Ge(_, _) => Err(String::from_str("Cannot differentiate a greater than or equal expression")),
        Expr::Mod(_, _) => Err(String::from_str("Cannot differentiate a modulo expression")),
        Expr::Literal(_) => {
            assert(terms_of(pending@) + Seq::<Term>::empty() =~= terms_of(pending@));
            Ok(lit(0))
        },
        Expr::Id(name) => {
            assert(terms_of(pending@) + Seq::<Term>::empty() =~= terms_of(pending@));
            if str_equal(name.as_str(), "x") {
                Ok(lit(1))
            } else {
                Ok(lit(0))
            }
        },
        Expr::Neg(a) => {
            let d = match derive_expr(a, pending) {
                Ok(d) => d,
                Err(m) => return Err(m),
            };
            Ok(Expr::Neg(Box::new(d)))
        },
        Expr::Add(f, g) => {
            let df = match derive_expr(f, pending) {
                Ok(d) => d,
                Err(m) => return Err(m),
            };
            let dg = match derive_expr(g, pending) {
                Ok(d) => d,
                Err(m) => return Err(m),
            };
            proof {
                vstd::seq_lib::lemma_concat_associative(
                    terms_of(old(pending)@),
                    derive(f@)->Ok_0.1,
                    derive(g@)->Ok_0.1,
                );
            }
            Ok(Expr::Add(Box::new(df), Box::new(dg)))
        },
        Expr::Sub(f, g) => {
            let df = match derive_expr(f, pending) {
                Ok(d) => d,
                Err(m) => return Err(m),
            };
            let dg = match derive_expr(g, pending) {
                Ok(d) => d,
                Err(m) => return Err(m),
            };
            proof {
                vstd::seq_lib::lemma_concat_associative(
                    terms_of(old(pending)@),
                    derive(f@)->Ok_0.1,
                    derive(g@)->Ok_0.1,
                );
            }
            Ok(Expr::Sub(Box::new(df), Box::new(dg)))
        },
        Expr::Mul(f, g) => {
            let df = match derive_expr(f, pending) {
                Ok(d) => d,
                Err(m) => return Err(m),
            };
            let dg = match derive_expr(g, pending) {
                Ok(d) => d,
                Err(m) => return Err(m),
            };
            proof {
                vstd::seq_lib::lemma_concat_associative(
                    terms_of(old(pending)@),
                    derive(f@)->Ok_0.1,
                    derive(g@)->Ok_0.1,
                );
            }
            Ok(product_rule(f, g, df, dg))
        },
        Expr::Div(f, g) => {
            let df = match derive_expr(f, pending) {
                Ok(d) => d,
                Err(m) => return Err(m),
            };
            let dg = match derive_expr(g, pending) {
                Ok(d) => d,
                Err(m) => return Err(m),
            };
            proof {
                vstd::seq_lib::lemma_concat_associative(
                    terms_of(old(pending)@),
                    derive(f@)->Ok_0.1,
                    derive(g@)->Ok_0.1,
                );
            }
            Ok(quotient_rule(f, g, df, dg))
        },
        Expr::Pow(f, g) => {
            let mf = mentions_variable(f);
            let mg = mentions_variable(g);
            if !mf && !mg {
                assert(terms_of(pending@) + Seq::<Term>::empty() =~= terms_of(pending@));
                Ok(lit(0))
            } else if !mg {
                let df = match derive_expr(f, pending) {
                    Ok(d) => d,
                    Err(m) => return Err(m),
                };
                Ok(power_base_rule(f, g, df))
            } else if !mf {
                let dg = match derive_expr(g, pending) {
                    Ok(d) => d,
                    Err(m) => return Err(m),
                };
                Ok(power_exponent_rule(f, g, dg))
            } else {
                let df = match derive_expr(f, pending) {
                    Ok(d) => d,
                    Err(m) => return Err(m),
                };
                let dg = match derive_expr(g, pending) {
                    Ok(d) => d,
                    Err(m) => return Err(m),
                };
                proof {
                    vstd::seq_lib::lemma_concat_associative(
                        terms_of(old(pending)@),
                        derive(f@)->Ok_0.1,
                        derive(g@)->Ok_0.1,
                    );
                }
                Ok(power_general_rule(f, g, df, dg))
            }
        },
        Expr::Call(name, args) => {
            proof {
                lemma_terms_of_len(args@);
            }
            let f = match Func::lookup(name.as_str()) {
                Some(f) => f,
                None => return Err(message("Cannot differentiate function ", name.as_str())),
            };
            if !has_derivative_rule(f) {
                return Err(message("Cannot differentiate function ", name.as_str()));
            }
            if args.len() != f.arity() {
                return Err(message("Wrong number of arguments for function ", name.as_str()));
            }
            proof {
                lemma_terms_of_index(args@, 0);
            }
            assert(decreases_to!(args => args@[0]));
            match f {
                Func::Log => {
                    proof {
                        lemma_terms_of_index(args@, 1);
                    }
                    assert(decreases_to!(args => args@[1]));
                    let da = match derive_expr(&args[0], pending) {
                        Ok(d) => d,
                        Err(m) => return Err(m),
                    };
                    let db = match derive_expr(&args[1], pending) {
                        Ok(d) => d,
                        Err(m) => return Err(m),
                    };
                    proof {
                        vstd::seq_lib::lemma_concat_associative(
                            terms_of(old(pending)@),
                            derive(args@[0]@)->Ok_0.1,
                            derive(args@[1]@)->Ok_0.1,
                        );
                    }
                    Ok(log_derivative(&args[0], &args[1], da, db))
                },
                _ => {
                    let d = match derive_expr(&args[0], pending) {
                        Ok(d) => d,
                        Err(m) => return Err(m),
                    };
                    let ghost dv = d@;
                    let ghost p = derive(args@[0]@)->Ok_0.1;
                    let ghost mid = terms_of(pending@);
                    if let Func::Abs = f {
                        let c = abs_correction(&args[0]);
                        proof {
                            lemma_terms_of_push(pending@, c);
                            assert(mid.push(c@) =~= terms_of(old(pending)@) + p.push(c@));
                        }
                        pending.push(c);
                    }
                    let r = unary_term(f, &args[0], d);
                    assert(unary_rule(f, args@[0]@, dv, p).0 == unary_rule(f, args@[0]@, dv, seq![]).0);
                    Ok(r)
                },
            }
        },
    }
}

/// The derivative of `ast` with respect to `x` (see `differentiate`), or a
/// message that says why it has none.
pub fn differentiate_expr(ast: &Expr) -> (r: Result<Expr, String>)
    ensures
        match differentiate(ast@) {
            Ok(t) => r matches Ok(e) && e@ == t,
            Err(m) => r matches Err(s) && s@ == m,
        },
{
    let mut pending: Vec<Expr> = Vec::new();
    let d = match derive_expr(ast, &mut pending) {
        Ok(d) => d,
        Err(m) => return Err(m),
    };
    let ghost p = derive(ast@)->Ok_0.1;
    let ghost d0 = d@;
    assert(terms_of(Seq::<Expr>::empty()) =~= Seq::<Term>::empty());
    assert(terms_of(pending@) =~= p);
    proof {
        lemma_terms_of_len(pending@);
    }
    let mut acc = d;
    let mut i: usize = 0;
    while i < pending.len()
        invariant
            terms_of(pending@) == p,
            p.len() == pending@.len(),
            i <= pending@.len(),
            acc@ == apply_corrections(d0, p.subrange(0, i as int)),
        decreases pending@.len() - i,
    {
        proof {
            lemma_terms_of_index(pending@, i as int);
            let q = p.subrange(0, i + 1);
            assert(q.subrange(0, i as int) =~= p.subrange(0, i as int));
        }
        acc = Expr::Mul(Box::new(acc), Box::new(copy_tree(&pending[i])));
        i = i + 1;
    }
    assert(p.subrange(0, i as int) =~= p);
    Ok(acc)
}

} // verus!
