use vstd::prelude::*;
use crate::ast::{Expr, Literal, Term, int_lit, is_one, is_zero, lemma_terms_of_index, lemma_terms_of_len, lemma_terms_of_push, terms_of};

verus! {

/// `a + b`, when it can be held exactly.
pub open spec fn fold_add(a: Literal, b: Literal) -> Option<Literal> {
    if a.den <= 0 || b.den <= 0 {
        None
    } else if a.den == b.den {
        match a.num.checked_add(b.num) {
            Some(n) => Some(Literal { num: n, den: a.den }),
            None => None,
        }
    } else {
        match (a.num.checked_mul(b.den), b.num.checked_mul(a.den), a.den.checked_mul(b.den)) {
            (Some(x), Some(y), Some(d)) => match x.checked_add(y) {
                Some(n) => Some(Literal { num: n, den: d }),
                None => None,
            },
            _ => None,
        }
    }
}

/// `a - b`, when it can be held exactly.
pub open spec fn fold_sub(a: Literal, b: Literal) -> Option<Literal> {
    if a.den <= 0 || b.den <= 0 {
        None
    } else if a.den == b.den {
        match a.num.checked_sub(b.num) {
            Some(n) => Some(Literal { num: n, den: a.den }),
            None => None,
        }
    } else {
        match (a.num.checked_mul(b.den), b.num.checked_mul(a.den), a.den.checked_mul(b.den)) {
            (Some(x), Some(y), Some(d)) => match x.checked_sub(y) {
                Some(n) => Some(Literal { num: n, den: d }),
                None => None,
            },
            _ => None,
        }
    }
}

/// `a * b`, when it can be held exactly.
pub open spec fn fold_mul(a: Literal, b: Literal) -> Option<Literal> {
    if a.den <= 0 || b.den <= 0 {
        None
    } else {
        match (a.num.checked_mul(b.num), a.den.checked_mul(b.den)) {
            (Some(n), Some(d)) => Some(Literal { num: n, den: d }),
            _ => None,
        }
    }
}

/// A fraction with a positive denominator equal to `n / d`, for `d != 0`.
pub open spec fn with_positive_den(n: i64, d: i64) -> Option<Literal> {
    if d > 0 {
        Some(Literal { num: n, den: d })
    } else {
        match ((0i64).checked_sub(n), (0i64).checked_sub(d)) {
            (Some(m), Some(e)) => Some(Literal { num: m, den: e }),
            _ => None,
        }
    }
}

/// `a / b`, when `b` is not zero and the quotient can be held exactly.
pub open spec fn fold_div(a: Literal, b: Literal) -> Option<Literal> {
    if a.den <= 0 || b.den <= 0 || b.num == 0 {
        None
    } else {
        match (a.num.checked_mul(b.den), a.den.checked_mul(b.num)) {
            (Some(n), Some(d)) => with_positive_den(n, d),
            _ => None,
        }
    }
}

/// The remainder of `a / b` truncated toward zero, with the sign of `a`, when
/// `b` is not zero and it can be held exactly.
pub open spec fn fold_mod(a: Literal, b: Literal) -> Option<Literal> {
    if a.den <= 0 || b.den <= 0 || b.num == 0 {
        None
    } else {
        match (a.num.checked_mul(b.den), b.num.checked_mul(a.den), a.den.checked_mul(b.den)) {
            (Some(x), Some(y), Some(d)) => match x.checked_rem(y) {
                Some(n) => Some(Literal { num: n, den: d }),
                None => None,
            },
            _ => None,
        }
    }
}

/// `a` raised to the natural power `k`, when it can be held exactly.
pub open spec fn pow_nat(a: Literal, k: nat) -> Option<Literal>
    decreases k,
{
    if k == 0 {
        Some(Literal { num: 1, den: 1 })
    } else {
        match pow_nat(a, (k - 1) as nat) {
            Some(p) => match (p.num.checked_mul(a.num), p.den.checked_mul(a.den)) {
                (Some(n), Some(d)) => Some(Literal { num: n, den: d }),
                _ => None,
            },
            None => None,
        }
    }
}

/// The largest magnitude of an integer exponent that is folded.
pub const MAX_FOLDED_EXPONENT: i64 = 64;

/// `a ^ b` for an integer `b` of magnitude at most `MAX_FOLDED_EXPONENT`,
/// when it can be held exactly.
pub open spec fn fold_pow(a: Literal, b: Literal) -> Option<Literal> {
    if a.den <= 0 || b.den != 1 || b.num > MAX_FOLDED_EXPONENT || b.num < -MAX_FOLDED_EXPONENT {
        None
    } else if b.num >= 0 {
        pow_nat(a, b.num as nat)
    } else if a.num == 0 {
        None
    } else {
        match pow_nat(a, (-b.num) as nat) {
            Some(p) => with_positive_den(p.den, p.num),
            None => None,
        }
    }
}

/// `-a`, when it can be held exactly.
pub open spec fn fold_neg(a: Literal) -> Option<Literal> {
    if a.den <= 0 {
        None
    } else {
        match (0i64).checked_sub(a.num) {
            Some(n) => Some(Literal { num: n, den: a.den }),
            None => None,
        }
    }
}

pub open spec fn zero_term(t: Term) -> bool {
    t matches Term::Lit(l) && is_zero(l)
}

pub open spec fn one_term(t: Term) -> bool {
    t matches Term::Lit(l) && is_one(l)
}

/// Whether both operands are literals and `f` folds them.
pub open spec fn folds(x: Term, y: Term, f: spec_fn(Literal, Literal) -> Option<Literal>) -> bool {
    x matches Term::Lit(a) && y matches Term::Lit(b) && f(a, b) is Some
}

pub open spec fn folded(x: Term, y: Term, f: spec_fn(Literal, Literal) -> Option<Literal>) -> Term {
    Term::Lit(f(x->Lit_0, y->Lit_0)->Some_0)
}

pub open spec fn neg_rule(x: Term) -> Term {
    if x matches Term::Lit(a) && fold_neg(a) is Some {
        Term::Lit(fold_neg(x->Lit_0)->Some_0)
    } else if x is Neg {
        *x->Neg_0
    } else {
        Term::Neg(Box::new(x))
    }
}

pub open spec fn add_rule(x: Term, y: Term) -> Term {
    if zero_term(x) {
        y
    } else if zero_term(y) {
        x
    } else if folds(x, y, |a, b| fold_add(a, b)) {
        folded(x, y, |a, b| fold_add(a, b))
    } else {
        Term::Add(Box::new(x), Box::new(y))
    }
}

pub open spec fn sub_rule(x: Term, y: Term) -> Term {
    if zero_term(y) {
        x
    } else if zero_term(x) {
        neg_rule(y)
    } else if folds(x, y, |a, b| fold_sub(a, b)) {
        folded(x, y, |a, b| fold_sub(a, b))
    } else {
        Term::Sub(Box::new(x), Box::new(y))
    }
}

pub open spec fn mul_rule(x: Term, y: Term) -> Term {
    if zero_term(x) || zero_term(y) {
        Term::Lit(int_lit(0))
    } else if one_term(x) {
        y
    } else if one_term(y) {
        x
    } else if folds(x, y, |a, b| fold_mul(a, b)) {
        folded(x, y, |a, b| fold_mul(a, b))
    } else {
        Term::Mul(Box::new(x), Box::new(y))
    }
}

pub open spec fn div_rule(x: Term, y: Term) -> Term {
    if zero_term(x) {
        Term::Lit(int_lit(0))
    } else if folds(x, y, |a, b| fold_div(a, b)) {
        folded(x, y, |a, b| fold_div(a, b))
    } else {
        Term::Div(Box::new(x), Box::new(y))
    }
}

pub open spec fn mod_rule(x: Term, y: Term) -> Term {
    if folds(x, y, |a, b| fold_mod(a, b)) {
        folded(x, y, |a, b| fold_mod(a, b))
    } else {
        Term::Mod(Box::new(x), Box::new(y))
    }
}

pub open spec fn pow_rule(x: Term, y: Term) -> Term {
    if zero_term(y) {
        Term::Lit(int_lit(1))
    } else if one_term(y) {
        x
    } else if zero_term(x) {
        Term::Lit(int_lit(0))
    } else if one_term(x) {
        Term::Lit(int_lit(1))
    } else if folds(x, y, |a, b| fold_pow(a, b)) {
        folded(x, y, |a, b| fold_pow(a, b))
    } else {
        Term::Pow(Box::new(x), Box::new(y))
    }
}

/// The simplified form of `t`: children first, then literal folding and the
/// identities `a+0 = 0+a = a`, `a-0 = a`, `0-a = -a`, `a*0 = 0*a = 0`,
/// `a*1 = 1*a = a`, `0/a = 0`, `a^0 = 1`, `a^1 = a`, `0^a = 0`, `1^a = 1` and
/// `-(-a) = a`. Relational nodes and calls keep
/// their place.
pub open spec fn simplify(t: Term) -> Term
    decreases t,
{
    match t {
        Term::Eq(l, r) => Term::Eq(Box::new(simplify(*l)), Box::new(simplify(*r))),
        Term::Ne(l, r) => Term::Ne(Box::new(simplify(*l)), Box::new(simplify(*r))),
        Term::Lt(l, r) => Term::Lt(Box::new(simplify(*l)), Box::new(simplify(*r))),
        Term::Gt(l, r) => Term::Gt(Box::new(simplify(*l)), Box::new(simplify(*r))),
        Term::Le(l, r) => Term::Le(Box::new(simplify(*l)), Box::new(simplify(*r))),
        Term::Ge(l, r) => Term::Ge(Box::new(simplify(*l)), Box::new(simplify(*r))),
        Term::Neg(a) => neg_rule(simplify(*a)),
        Term::Add(l, r) => add_rule(simplify(*l), simplify(*r)),
        Term::Sub(l, r) => sub_rule(simplify(*l), simplify(*r)),
        Term::Mul(l, r) => mul_rule(simplify(*l), simplify(*r)),
        Term::Div(l, r) => div_rule(simplify(*l), simplify(*r)),
        Term::Mod(l, r) => mod_rule(simplify(*l), simplify(*r)),
        Term::Pow(l, r) => pow_rule(simplify(*l), simplify(*r)),
        Term::Call(n, args) => Term::Call(n, simplify_list(args)),
        Term::Id(n) => Term::Id(n),
        Term::Lit(x) => Term::Lit(x),
    }
}

pub open spec fn simplify_list(s: Seq<Term>) -> Seq<Term>
    decreases s,
{
    if s.len() == 0 {
        seq![]
    } else {
        simplify_list(s.subrange(0, s.len() - 1)).push(simplify(s[s.len() - 1]))
    }
}

/// Whether no rule of `simplify` applies anywhere in `t`.
pub open spec fn is_simplified(t: Term) -> bool
    decreases t,
{
    match t {
        Term::Eq(l, r) => is_simplified(*l) && is_simplified(*r),
        Term::Ne(l, r) => is_simplified(*l) && is_simplified(*r),
        Term::Lt(l, r) => is_simplified(*l) && is_simplified(*r),
        Term::Gt(l, r) => is_simplified(*l) && is_simplified(*r),
        Term::Le(l, r) => is_simplified(*l) && is_simplified(*r),
        Term::Ge(l, r) => is_simplified(*l) && is_simplified(*r),
        Term::Neg(a) => is_simplified(*a) && !(*a matches Term::Lit(x) && fold_neg(x) is Some)
            && !(*a is Neg),
        Term::Add(l, r) => is_simplified(*l) && is_simplified(*r) && !zero_term(*l) && !zero_term(*r)
            && !folds(*l, *r, |a, b| fold_add(a, b)),
        Term::Sub(l, r) => is_simplified(*l) && is_simplified(*r) && !zero_term(*l) && !zero_term(
            *r,
        ) && !folds(
            *l,
            *r,
            |a, b| fold_sub(a, b),
        ),
        Term::Mul(l, r) => is_simplified(*l) && is_simplified(*r) && !zero_term(*l) && !zero_term(*r)
            && !one_term(*l) && !one_term(*r) && !folds(*l, *r, |a, b| fold_mul(a, b)),
        Term::Div(l, r) => is_simplified(*l) && is_simplified(*r) && !zero_term(*l) && !folds(
            *l,
            *r,
            |a, b| fold_div(a, b),
        ),
        Term::Mod(l, r) => is_simplified(*l) && is_simplified(*r) && !folds(
            *l,
            *r,
            |a, b| fold_mod(a, b),
        ),
        Term::Pow(l, r) => is_simplified(*l) && is_simplified(*r) && !zero_term(*r) && !one_term(*r)
            && !zero_term(*l) && !one_term(*l) && !folds(*l, *r, |a, b| fold_pow(a, b)),
        Term::Call(_, args) => is_simplified_list(args),
        Term::Id(_) => true,
        Term::Lit(_) => true,
    }
}

pub open spec fn is_simplified_list(s: Seq<Term>) -> bool
    decreases s,
{
    if s.len() == 0 {
        true
    } else {
        is_simplified_list(s.subrange(0, s.len() - 1)) && is_simplified(s[s.len() - 1])
    }
}

/// What `simplify` returns is simplified.
pub proof fn lemma_simplify_is_simplified(t: Term)
    ensures
        is_simplified(simplify(t)),
    decreases t,
{
    match t {
        Term::Eq(l, r) => {
            lemma_simplify_is_simplified(*l);
            lemma_simplify_is_simplified(*r);
        },
        Term::Ne(l, r) => {
            lemma_simplify_is_simplified(*l);
            lemma_simplify_is_simplified(*r);
        },
        Term::Lt(l, r) => {
            lemma_simplify_is_simplified(*l);
            lemma_simplify_is_simplified(*r);
        },
        Term::Gt(l, r) => {
            lemma_simplify_is_simplified(*l);
            lemma_simplify_is_simplified(*r);
        },
        Term::Le(l, r) => {
            lemma_simplify_is_simplified(*l);
            lemma_simplify_is_simplified(*r);
        },
        Term::Ge(l, r) => {
            lemma_simplify_is_simplified(*l);
            lemma_simplify_is_simplified(*r);
        },
        Term::Neg(a) => {
            lemma_simplify_is_simplified(*a);
        },
        Term::Add(l, r) | Term::Sub(l, r) | Term::Mul(l, r) | Term::Div(l, r) | Term::Mod(l, r)
        | Term::Pow(l, r) => {
            lemma_simplify_is_simplified(*l);
            lemma_simplify_is_simplified(*r);
        },
        Term::Call(_, args) => {
            lemma_simplify_list_is_simplified(args);
        },
        _ => {},
    }
}

pub proof fn lemma_simplify_list_is_simplified(s: Seq<Term>)
    ensures
        is_simplified_list(simplify_list(s)),
    decreases s,
{
    if s.len() > 0 {
        let p = s.subrange(0, s.len() - 1);
        lemma_simplify_list_is_simplified(p);
        lemma_simplify_is_simplified(s[s.len() - 1]);
        let q = simplify_list(s);
        assert(q.subrange(0, q.len() - 1) =~= simplify_list(p));
    }
}

/// `simplify` leaves a simplified tree as it is.
pub proof fn lemma_simplified_is_fixed(t: Term)
    requires
        is_simplified(t),
    ensures
        simplify(t) == t,
    decreases t,
{
    match t {
        Term::Eq(l, r) => {
            lemma_simplified_is_fixed(*l);
            lemma_simplified_is_fixed(*r);
        },
        Term::Ne(l, r) => {
            lemma_simplified_is_fixed(*l);
            lemma_simplified_is_fixed(*r);
        },
        Term::Lt(l, r) => {
            lemma_simplified_is_fixed(*l);
            lemma_simplified_is_fixed(*r);
        },
        Term::Gt(l, r) => {
            lemma_simplified_is_fixed(*l);
            lemma_simplified_is_fixed(*r);
        },
        Term::Le(l, r) => {
            lemma_simplified_is_fixed(*l);
            lemma_simplified_is_fixed(*r);
        },
        Term::Ge(l, r) => {
            lemma_simplified_is_fixed(*l);
            lemma_simplified_is_fixed(*r);
        },
        Term::Neg(a) => {
            lemma_simplified_is_fixed(*a);
        },
        Term::Add(l, r) | Term::Sub(l, r) | Term::Mul(l, r) | Term::Div(l, r) | Term::Mod(l, r)
        | Term::Pow(l, r) => {
            lemma_simplified_is_fixed(*l);
            lemma_simplified_is_fixed(*r);
        },
        Term::Call(_, args) => {
            lemma_simplified_list_is_fixed(args);
        },
        _ => {},
    }
}

pub proof fn lemma_simplified_list_is_fixed(s: Seq<Term>)
    requires
        is_simplified_list(s),
    ensures
        simplify_list(s) == s,
    decreases s,
{
    if s.len() > 0 {
        let p = s.subrange(0, s.len() - 1);
        lemma_simplified_list_is_fixed(p);
        lemma_simplified_is_fixed(s[s.len() - 1]);
        assert(p.push(s[s.len() - 1]) =~= s);
    }
}

/// Simplifying twice gives what simplifying once gives.
pub proof fn lemma_simplify_idempotent(t: Term)
    ensures
        simplify(simplify(t)) == simplify(t),
{
    lemma_simplify_is_simplified(t);
    lemma_simplified_is_fixed(simplify(t));
}

/// `a + b`, when it can be held exactly.
pub fn add_literals(a: &Literal, b: &Literal) -> (r: Option<Literal>)
    ensures
        r == fold_add(*a, *b),
{
    if a.den <= 0 || b.den <= 0 {
        None
    } else if a.den == b.den {
        match a.num.checked_add(b.num) {
            Some(n) => Some(Literal { num: n, den: a.den }),
            None => None,
        }
    } else {
        match (a.num.checked_mul(b.den), b.num.checked_mul(a.den), a.den.checked_mul(b.den)) {
            (Some(x), Some(y), Some(d)) => match x.checked_add(y) {
                Some(n) => Some(Literal { num: n, den: d }),
                None => None,
            },
            _ => None,
        }
    }
}

/// `a - b`, when it can be held exactly.
pub fn sub_literals(a: &Literal, b: &Literal) -> (r: Option<Literal>)
    ensures
        r == fold_sub(*a, *b),
{
    if a.den <= 0 || b.den <= 0 {
        None
    } else if a.den == b.den {
        match a.num.checked_sub(b.num) {
            Some(n) => Some(Literal { num: n, den: a.den }),
            None => None,
        }
    } else {
        match (a.num.checked_mul(b.den), b.num.checked_mul(a.den), a.den.checked_mul(b.den)) {
            (Some(x), Some(y), Some(d)) => match x.checked_sub(y) {
                Some(n) => Some(Literal { num: n, den: d }),
                None => None,
            },
            _ => None,
        }
    }
}

/// `a * b`, when it can be held exactly.
pub fn mul_literals(a: &Literal, b: &Literal) -> (r: Option<Literal>)
    ensures
        r == fold_mul(*a, *b),
{
    if a.den <= 0 || b.den <= 0 {
        None
    } else {
        match (a.num.checked_mul(b.num), a.den.checked_mul(b.den)) {
            (Some(n), Some(d)) => Some(Literal { num: n, den: d }),
            _ => None,
        }
    }
}

fn positive_den(n: i64, d: i64) -> (r: Option<Literal>)
    ensures
        r == with_positive_den(n, d),
{
    if d > 0 {
        Some(Literal { num: n, den: d })
    } else {
        match ((0i64).checked_sub(n), (0i64).checked_sub(d)) {
            (Some(m), Some(e)) => Some(Literal { num: m, den: e }),
            _ => None,
        }
    }
}

/// `a / b`, when `b` is not zero and the quotient can be held exactly.
pub fn div_literals(a: &Literal, b: &Literal) -> (r: Option<Literal>)
    ensures
        r == fold_div(*a, *b),
{
    if a.den <= 0 || b.den <= 0 || b.num == 0 {
        None
    } else {
        match (a.num.checked_mul(b.den), a.den.checked_mul(b.num)) {
            (Some(n), Some(d)) => positive_den(n, d),
            _ => None,
        }
    }
}

/// The truncated remainder of `a / b`, when `b` is not zero and it can be
/// held exactly.
pub fn mod_literals(a: &Literal, b: &Literal) -> (r: Option<Literal>)
    ensures
        r == fold_mod(*a, *b),
{
    if a.den <= 0 || b.den <= 0 || b.num == 0 {
        None
    } else {
        match (a.num.checked_mul(b.den), b.num.checked_mul(a.den), a.den.checked_mul(b.den)) {
            (Some(x), Some(y), Some(d)) => match x.checked_rem(y) {
                Some(n) => Some(Literal { num: n, den: d }),
                None => None,
            },
            _ => None,
        }
    }
}

fn pow_literal(a: &Literal, k: i64) -> (r: Option<Literal>)
    requires
        0 <= k,
    ensures
        r == pow_nat(*a, k as nat),
{
    let mut acc = Literal { num: 1, den: 1 };
    let mut i: i64 = 0;
    while i < k
        invariant
            0 <= i <= k,
            pow_nat(*a, i as nat) == Some(acc),
        decreases k - i,
    {
        match (acc.num.checked_mul(a.num), acc.den.checked_mul(a.den)) {
            (Some(n), Some(d)) => {
                acc = Literal { num: n, den: d };
            },
            _ => {
                proof {
                    lemma_pow_nat_none(*a, (i + 1) as nat, k as nat);
                }
                return None;
            },
        }
        i = i + 1;
    }
    Some(acc)
}

proof fn lemma_pow_nat_none(a: Literal, i: nat, k: nat)
    requires
        i <= k,
        pow_nat(a, i) is None,
    ensures
        pow_nat(a, k) is None,
    decreases k - i,
{
    if i < k {
        lemma_pow_nat_none(a, i + 1, k);
    }
}

/// `a ^ b` for a small integer `b`, when it can be held exactly.
pub fn pow_literals(a: &Literal, b: &Literal) -> (r: Option<Literal>)
    ensures
        r == fold_pow(*a, *b),
{
    if a.den <= 0 || b.den != 1 || b.num > MAX_FOLDED_EXPONENT || b.num < -MAX_FOLDED_EXPONENT {
        None
    } else if b.num >= 0 {
        pow_literal(a, b.num)
    } else if a.num == 0 {
        None
    } else {
        match pow_literal(a, -b.num) {
            Some(p) => positive_den(p.den, p.num),
            None => None,
        }
    }
}

/// `-a`, when it can be held exactly.
pub fn neg_literal(a: &Literal) -> (r: Option<Literal>)
    ensures
        r == fold_neg(*a),
{
    if a.den <= 0 {
        None
    } else {
        match (0i64).checked_sub(a.num) {
            Some(n) => Some(Literal { num: n, den: a.den }),
            None => None,
        }
    }
}

fn literal_of(x: &Expr) -> (r: Option<Literal>)
    ensures
        r matches Some(l) ==> x@ == Term::Lit(l),
        r is None ==> !(x@ is Lit),
{
    match x {
        Expr::Literal(l) => Some(*l),
        _ => None,
    }
}

fn is_zero_expr(x: &Expr) -> (r: bool)
    ensures
        r == zero_term(x@),
{
    match x {
        Expr::Literal(l) => l.den > 0 && l.num == 0,
        _ => false,
    }
}

fn is_one_expr(x: &Expr) -> (r: bool)
    ensures
        r == one_term(x@),
{
    match x {
        Expr::Literal(l) => l.den > 0 && l.num == l.den,
        _ => false,
    }
}

fn neg_node(x: Expr) -> (r: Expr)
    ensures
        r@ == neg_rule(x@),
{
    if let Expr::Literal(a) = &x {
        if let Some(n) = neg_literal(a) {
            return Expr::Literal(n);
        }
    }
    match x {
        Expr::Neg(inner) => *inner,
        other => Expr::Neg(Box::new(other)),
    }
}

fn add_node(x: Expr, y: Expr) -> (r: Expr)
    ensures
        r@ == add_rule(x@, y@),
{
    if is_zero_expr(&x) {
        return y;
    }
    if is_zero_expr(&y) {
        return x;
    }
    if let (Some(a), Some(b)) = (literal_of(&x), literal_of(&y)) {
        if let Some(c) = add_literals(&a, &b) {
            return Expr::Literal(c);
        }
    }
    Expr::Add(Box::new(x), Box::new(y))
}

fn sub_node(x: Expr, y: Expr) -> (r: Expr)
    ensures
        r@ == sub_rule(x@, y@),
{
    if is_zero_expr(&y) {
        return x;
    }
    if is_zero_expr(&x) {
        return neg_node(y);
    }
    if let (Some(a), Some(b)) = (literal_of(&x), literal_of(&y)) {
        if let Some(c) = sub_literals(&a, &b) {
            return Expr::Literal(c);
        }
    }
    Expr::Sub(Box::new(x), Box::new(y))
}

fn mul_node(x: Expr, y: Expr) -> (r: Expr)
    ensures
        r@ == mul_rule(x@, y@),
{
    if is_zero_expr(&x) || is_zero_expr(&y) {
        return Expr::Literal(Literal::integer(0));
    }
    if is_one_expr(&x) {
        return y;
    }
    if is_one_expr(&y) {
        return x;
    }
    if let (Some(a), Some(b)) = (literal_of(&x), literal_of(&y)) {
        if let Some(c) = mul_literals(&a, &b) {
            return Expr::Literal(c);
        }
    }
    Expr::Mul(Box::new(x), Box::new(y))
}

fn div_node(x: Expr, y: Expr) -> (r: Expr)
    ensures
        r@ == div_rule(x@, y@),
{
    if is_zero_expr(&x) {
        return Expr::Literal(Literal::integer(0));
    }
    if let (Some(a), Some(b)) = (literal_of(&x), literal_of(&y)) {
        if let Some(c) = div_literals(&a, &b) {
            return Expr::Literal(c);
        }
    }
    Expr::Div(Box::new(x), Box::new(y))
}

fn mod_node(x: Expr, y: Expr) -> (r: Expr)
    ensures
        r@ == mod_rule(x@, y@),
{
    if let (Some(a), Some(b)) = (literal_of(&x), literal_of(&y)) {
        if let Some(c) = mod_literals(&a, &b) {
            return Expr::Literal(c);
        }
    }
    Expr::Mod(Box::new(x), Box::new(y))
}

fn pow_node(x: Expr, y: Expr) -> (r: Expr)
    ensures
        r@ == pow_rule(x@, y@),
{
    if is_zero_expr(&y) {
        return Expr::Literal(Literal::integer(1));
    }
    if is_one_expr(&y) {
        return x;
    }
    if is_zero_expr(&x) {
        return Expr::Literal(Literal::integer(0));
    }
    if is_one_expr(&x) {
        return Expr::Literal(Literal::integer(1));
    }
    if let (Some(a), Some(b)) = (literal_of(&x), literal_of(&y)) {
        if let Some(c) = pow_literals(&a, &b) {
            return Expr::Literal(c);
        }
    }
    Expr::Pow(Box::new(x), Box::new(y))
}

/// The simplified form of `ast` (see `simplify`): a new tree, built bottom-up.
pub fn fold_expr(ast: &Expr) -> (r: Expr)
    ensures
        r@ == simplify(ast@),
    decreases ast,
{
    match ast {
        Expr::Eq(l, r) => Expr::Eq(Box::new(fold_expr(l)), Box::new(fold_expr(r))),
        Expr::Ne(l, r) => Expr::Ne(Box::new(fold_expr(l)), Box::new(fold_expr(r))),
        Expr::Lt(l, r) => Expr::Lt(Box::new(fold_expr(l)), Box::new(fold_expr(r))),
        Expr::Gt(l, r) => Expr::Gt(Box::new(fold_expr(l)), Box::new(fold_expr(r))),
        Expr::Le(l, r) => Expr::Le(Box::new(fold_expr(l)), Box::new(fold_expr(r))),
        Expr::Ge(l, r) => Expr::Ge(Box::new(fold_expr(l)), Box::new(fold_expr(r))),
        Expr::Neg(a) => neg_node(fold_expr(a)),
        Expr::Add(l, r) => add_node(fold_expr(l), fold_expr(r)),
        Expr::Sub(l, r) => sub_node(fold_expr(l), fold_expr(r)),
        Expr::Mul(l, r) => mul_node(fold_expr(l), fold_expr(r)),
        Expr::Div(l, r) => div_node(fold_expr(l), fold_expr(r)),
        Expr::Mod(l, r) => mod_node(fold_expr(l), fold_expr(r)),
        Expr::Pow(l, r) => pow_node(fold_expr(l), fold_expr(r)),
        Expr::Call(name, args) => Expr::Call(name.clone(), fold_args(args)),
        Expr::Id(name) => Expr::Id(name.clone()),
        Expr::Literal(x) => Expr::Literal(*x),
    }
}

fn fold_args(args: &Vec<Expr>) -> (r: Vec<Expr>)
    ensures
        terms_of(r@) == simplify_list(terms_of(args@)),
    decreases args,
{
    let ghost ts = terms_of(args@);
    proof {
        lemma_terms_of_len(args@);
    }
    let mut r: Vec<Expr> = Vec::new();
    let mut i: usize = 0;
    while i < args.len()
        invariant
            ts == terms_of(args@),
            ts.len() == args@.len(),
            i <= args@.len(),
            terms_of(r@) == simplify_list(ts.subrange(0, i as int)),
        decreases args@.len() - i,
    {
        proof {
            lemma_terms_of_index(args@, i as int);
        }
        assert(decreases_to!(args => args@[i as int]));
        let c = fold_expr(&args[i]);
        proof {
            lemma_terms_of_push(r@, c);
            let p = ts.subrange(0, i + 1);
            assert(p.subrange(0, i as int) =~= ts.subrange(0, i as int));
        }
        r.push(c);
        i = i + 1;
    }
    assert(ts.subrange(0, i as int) =~= ts);
    r
}

} // verus!
