use vstd::prelude::*;

verus! {

/// A number literal, held exactly as the fraction `num / den`.
///
/// Literals from the source text are decimals, so `den` is a power of ten
/// there; folding keeps the value exact. A literal with `den <= 0` is never
/// folded and is rendered as written.
#[derive(Debug, Clone, Copy, PartialEq, Eq, Structural)]
pub struct Literal {
    pub num: i64,
    pub den: i64,
}

impl Literal {
    pub fn new(num: i64, den: i64) -> (r: Self)
        ensures
            r.num == num,
            r.den == den,
    {
        Literal { num, den }
    }

    /// The integer `n`.
    pub fn integer(n: i64) -> (r: Self)
        ensures
            r == int_lit(n as int),
    {
        Literal { num: n, den: 1 }
    }
}

pub open spec fn int_lit(n: int) -> Literal {
    Literal { num: n as i64, den: 1 }
}

pub open spec fn is_zero(l: Literal) -> bool {
    l.den > 0 && l.num == 0
}

pub open spec fn is_one(l: Literal) -> bool {
    l.den > 0 && l.num == l.den
}

/// An expression tree. Each node owns its children.
#[derive(Debug, PartialEq)]
pub enum Expr {
    Eq(Box<Expr>, Box<Expr>),
    Ne(Box<Expr>, Box<Expr>),
    Lt(Box<Expr>, Box<Expr>),
    Gt(Box<Expr>, Box<Expr>),
    Le(Box<Expr>, Box<Expr>),
    Ge(Box<Expr>, Box<Expr>),
    Neg(Box<Expr>),
    Add(Box<Expr>, Box<Expr>),
    Sub(Box<Expr>, Box<Expr>),
    Mul(Box<Expr>, Box<Expr>),
    Div(Box<Expr>, Box<Expr>),
    Mod(Box<Expr>, Box<Expr>),
    Pow(Box<Expr>, Box<Expr>),
    Call(String, Vec<Expr>),
    Id(String),
    Literal(Literal),
}

/// The mathematical model of an expression tree: names as character
/// sequences and arguments as a sequence.
pub enum Term {
    Eq(Box<Term>, Box<Term>),
    Ne(Box<Term>, Box<Term>),
    Lt(Box<Term>, Box<Term>),
    Gt(Box<Term>, Box<Term>),
    Le(Box<Term>, Box<Term>),
    Ge(Box<Term>, Box<Term>),
    Neg(Box<Term>),
    Add(Box<Term>, Box<Term>),
    Sub(Box<Term>, Box<Term>),
    Mul(Box<Term>, Box<Term>),
    Div(Box<Term>, Box<Term>),
    Mod(Box<Term>, Box<Term>),
    Pow(Box<Term>, Box<Term>),
    Call(Seq<char>, Seq<Term>),
    Id(Seq<char>),
    Lit(Literal),
}

pub open spec fn term_of(e: Expr) -> Term
    decreases e,
{
    match e {
        Expr::Eq(l, r) => Term::Eq(Box::new(term_of(*l)), Box::new(term_of(*r))),
        Expr::Ne(l, r) => Term::Ne(Box::new(term_of(*l)), Box::new(term_of(*r))),
        Expr::Lt(l, r) => Term::Lt(Box::new(term_of(*l)), Box::new(term_of(*r))),
        Expr::Gt(l, r) => Term::Gt(Box::new(term_of(*l)), Box::new(term_of(*r))),
        Expr::Le(l, r) => Term::Le(Box::new(term_of(*l)), Box::new(term_of(*r))),
        Expr::Ge(l, r) => Term::Ge(Box::new(term_of(*l)), Box::new(term_of(*r))),
        Expr::Neg(a) => Term::Neg(Box::new(term_of(*a))),
        Expr::Add(l, r) => Term::Add(Box::new(term_of(*l)), Box::new(term_of(*r))),
        Expr::Sub(l, r) => Term::Sub(Box::new(term_of(*l)), Box::new(term_of(*r))),
        Expr::Mul(l, r) => Term::Mul(Box::new(term_of(*l)), Box::new(term_of(*r))),
        Expr::Div(l, r) => Term::Div(Box::new(term_of(*l)), Box::new(term_of(*r))),
        Expr::Mod(l, r) => Term::Mod(Box::new(term_of(*l)), Box::new(term_of(*r))),
        Expr::Pow(l, r) => Term::Pow(Box::new(term_of(*l)), Box::new(term_of(*r))),
        Expr::Call(name, args) => Term::Call(name@, terms_of(args@)),
        Expr::Id(name) => Term::Id(name@),
        Expr::Literal(l) => Term::Lit(l),
    }
}

pub open spec fn terms_of(s: Seq<Expr>) -> Seq<Term>
    decreases s,
{
    if s.len() == 0 {
        seq![]
    } else {
        terms_of(s.subrange(0, s.len() - 1)).push(term_of(s[s.len() - 1]))
    }
}

impl View for Expr {
    type V = Term;

    open spec fn view(&self) -> Term {
        term_of(*self)
    }
}

pub proof fn lemma_terms_of_push(s: Seq<Expr>, e: Expr)
    ensures
        terms_of(s.push(e)) == terms_of(s).push(term_of(e)),
{
    assert(s.push(e).subrange(0, s.len() as int) =~= s);
}

pub proof fn lemma_terms_of_len(s: Seq<Expr>)
    ensures
        terms_of(s).len() == s.len(),
    decreases s.len(),
{
    if s.len() > 0 {
        lemma_terms_of_len(s.subrange(0, s.len() - 1));
    }
}

pub proof fn lemma_terms_of_index(s: Seq<Expr>, i: int)
    requires
        0 <= i < s.len(),
    ensures
        terms_of(s)[i] == term_of(s[i]),
        terms_of(s).len() == s.len(),
    decreases s.len(),
{
    lemma_terms_of_len(s);
    if i < s.len() - 1 {
        lemma_terms_of_index(s.subrange(0, s.len() - 1), i);
    }
}

pub open spec fn is_relation(e: Term) -> bool {
    e is Eq || e is Ne || e is Lt || e is Gt || e is Le || e is Ge
}

/// How many relational nodes the tree holds.
pub open spec fn relation_count(e: Term) -> nat
    decreases e,
{
    match e {
        Term::Eq(l, r) => 1 + relation_count(*l) + relation_count(*r),
        Term::Ne(l, r) => 1 + relation_count(*l) + relation_count(*r),
        Term::Lt(l, r) => 1 + relation_count(*l) + relation_count(*r),
        Term::Gt(l, r) => 1 + relation_count(*l) + relation_count(*r),
        Term::Le(l, r) => 1 + relation_count(*l) + relation_count(*r),
        Term::Ge(l, r) => 1 + relation_count(*l) + relation_count(*r),
        Term::Neg(a) => relation_count(*a),
        Term::Add(l, r) => relation_count(*l) + relation_count(*r),
        Term::Sub(l, r) => relation_count(*l) + relation_count(*r),
        Term::Mul(l, r) => relation_count(*l) + relation_count(*r),
        Term::Div(l, r) => relation_count(*l) + relation_count(*r),
        Term::Mod(l, r) => relation_count(*l) + relation_count(*r),
        Term::Pow(l, r) => relation_count(*l) + relation_count(*r),
        Term::Call(_, args) => relation_count_seq(args),
        Term::Id(_) => 0,
        Term::Lit(_) => 0,
    }
}

pub open spec fn relation_count_seq(s: Seq<Term>) -> nat
    decreases s,
{
    if s.len() == 0 {
        0
    } else {
        relation_count_seq(s.subrange(0, s.len() - 1)) + relation_count(s[s.len() - 1])
    }
}

/// A copy of `e`, equal to it.
pub fn copy_tree(e: &Expr) -> (out: Expr)
    ensures
        out@ == e@,
    decreases e,
{
    match e {
        Expr::Eq(l, r) => Expr::Eq(Box::new(copy_tree(l)), Box::new(copy_tree(r))),
        Expr::Ne(l, r) => Expr::Ne(Box::new(copy_tree(l)), Box::new(copy_tree(r))),
        Expr::Lt(l, r) => Expr::Lt(Box::new(copy_tree(l)), Box::new(copy_tree(r))),
        Expr::Gt(l, r) => Expr::Gt(Box::new(copy_tree(l)), Box::new(copy_tree(r))),
        Expr::Le(l, r) => Expr::Le(Box::new(copy_tree(l)), Box::new(copy_tree(r))),
        Expr::Ge(l, r) => Expr::Ge(Box::new(copy_tree(l)), Box::new(copy_tree(r))),
        Expr::Neg(a) => Expr::Neg(Box::new(copy_tree(a))),
        Expr::Add(l, r) => Expr::Add(Box::new(copy_tree(l)), Box::new(copy_tree(r))),
        Expr::Sub(l, r) => Expr::Sub(Box::new(copy_tree(l)), Box::new(copy_tree(r))),
        Expr::Mul(l, r) => Expr::Mul(Box::new(copy_tree(l)), Box::new(copy_tree(r))),
        Expr::Div(l, r) => Expr::Div(Box::new(copy_tree(l)), Box::new(copy_tree(r))),
        Expr::Mod(l, r) => Expr::Mod(Box::new(copy_tree(l)), Box::new(copy_tree(r))),
        Expr::Pow(l, r) => Expr::Pow(Box::new(copy_tree(l)), Box::new(copy_tree(r))),
        Expr::Call(name, args) => Expr::Call(name.clone(), copy_args(args)),
        Expr::Id(name) => Expr::Id(name.clone()),
        Expr::Literal(l) => Expr::Literal(*l),
    }
}

/// A copy of a list of arguments, equal to it.
pub fn copy_args(args: &Vec<Expr>) -> (r: Vec<Expr>)
    ensures
        terms_of(r@) == terms_of(args@),
    decreases args,
{
    let mut r: Vec<Expr> = Vec::new();
    let mut i: usize = 0;
    while i < args.len()
        invariant
            i <= args@.len(),
            terms_of(r@) == terms_of(args@.subrange(0, i as int)),
        decreases args@.len() - i,
    {
        assert(decreases_to!(args => args@[i as int]));
        let c = copy_tree(&args[i]);
        proof {
            lemma_terms_of_push(r@, c);
            lemma_terms_of_push(args@.subrange(0, i as int), args@[i as int]);
            assert(args@.subrange(0, i as int).push(args@[i as int]) =~= args@.subrange(
                0,
                i + 1,
            ));
        }
        r.push(c);
        i = i + 1;
    }
    assert(args@.subrange(0, i as int) =~= args@);
    r
}

} // verus!
