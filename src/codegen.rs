use vstd::prelude::*;
use vstd::string::*;
use crate::ast::{Expr, Literal, Term, lemma_terms_of_index, lemma_terms_of_len, terms_of};
use crate::registry::{Func, func_named, script_name, str_equal};

verus! {

pub open spec fn digit_char(d: nat) -> char {
    if d == 0 {
        '0'
    } else if d == 1 {
        '1'
    } else if d == 2 {
        '2'
    } else if d == 3 {
        '3'
    } else if d == 4 {
        '4'
    } else if d == 5 {
        '5'
    } else if d == 6 {
        '6'
    } else if d == 7 {
        '7'
    } else if d == 8 {
        '8'
    } else {
        '9'
    }
}

/// The decimal digits of `n`.
pub open spec fn decimal(n: nat) -> Seq<char>
    decreases n,
{
    if n < 10 {
        seq![digit_char(n)]
    } else {
        decimal(n / 10).push(digit_char(n % 10))
    }
}

/// An integer in decimal, with a minus sign when it is negative.
pub open spec fn signed_decimal(n: int) -> Seq<char> {
    if n < 0 {
        "-"@ + decimal((-n) as nat)
    } else {
        decimal(n as nat)
    }
}

/// The exponent `k` with `10^k == d`, when `d` is a power of ten.
pub open spec fn ten_exponent(d: int) -> Option<nat>
    decreases d,
{
    if d == 1 {
        Some(0)
    } else if d > 1 && d % 10 == 0 {
        match ten_exponent(d / 10) {
            Some(k) => Some(k + 1),
            None => None,
        }
    } else {
        None
    }
}

pub open spec fn zeros(n: nat) -> Seq<char> {
    Seq::new(n, |i: int| '0')
}

/// The decimal text of `m / 10^k`: the digits of `m` with a point before
/// the last `k` of them, and zeros in front where they are fewer than
/// `k + 1`.
pub open spec fn fixed_point(m: nat, k: nat) -> Seq<char> {
    let ds = decimal(m);
    if k == 0 {
        ds
    } else if ds.len() <= k {
        "0."@ + zeros((k - ds.len()) as nat) + ds
    } else {
        ds.subrange(0, ds.len() - k) + "."@ + ds.subrange(ds.len() - k, ds.len() as int)
    }
}

/// How a literal is written: one whose denominator is a power of ten in
/// decimal (`42`, `0.001`, `12.50`), parenthesized with a minus sign when it
/// is negative (`(-1.5)`); any other as a parenthesized quotient
/// (`(1 / 3)`). Either way it reads as one operand wherever it stands.
#[verifier::opaque]
pub open spec fn literal_text(l: Literal) -> Seq<char> {
    match ten_exponent(l.den as int) {
        Some(k) => if l.num >= 0 {
            fixed_point(l.num as nat, k)
        } else {
            "(-"@ + fixed_point((-l.num) as nat, k) + ")"@
        },
        None => "("@ + signed_decimal(l.num as int) + " / "@ + signed_decimal(l.den as int) + ")"@,
    }
}

proof fn lemma_ten_exponent_bound(d: int)
    requires
        ten_exponent(d) is Some,
    ensures
        ten_exponent(d)->Some_0 < d,
    decreases d,
{
    if d != 1 {
        lemma_ten_exponent_bound(d / 10);
    }
}

fn ten_exponent_of(d: i64) -> (r: Option<u64>)
    ensures
        r matches Some(k) ==> ten_exponent(d as int) == Some(k as nat),
        r is None ==> ten_exponent(d as int) is None,
    decreases d,
{
    if d == 1 {
        Some(0)
    } else if d > 1 && d % 10 == 0 {
        match ten_exponent_of(d / 10) {
            Some(k) => {
                proof {
                    lemma_ten_exponent_bound(d / 10);
                }
                Some(k + 1)
            },
            None => None,
        }
    } else {
        None
    }
}

/// Appends the decimal text of `m / 10^k`.
fn push_fixed_point(m: u64, k: u64, out: &mut String)
    ensures
        final(out)@ == old(out)@ + fixed_point(m as nat, k as nat),
{
    if k == 0 {
        push_decimal(m, out);
        return;
    }
    let mut ds = String::new();
    push_decimal(m, &mut ds);
    assert(ds@ =~= decimal(m as nat));
    let digits = ds.as_str();
    let n = digits.unicode_len();
    if (n as u64) <= k {
        out.append("0.");
        let ghost start = out@;
        let mut i: u64 = 0;
        while i < k - n as u64
            invariant
                i <= k - n,
                out@ == start + zeros(i as nat),
            decreases k - n - i,
        {
            out.append("0");
            proof {
                reveal_strlit("0");
            }
            assert(out@ =~= start + zeros((i + 1) as nat));
            i = i + 1;
        }
        out.append(digits);
    } else {
        let cut = n - k as usize;
        out.append(digits.substring_char(0, cut));
        out.append(".");
        out.append(digits.substring_char(cut, n));
    }
    assert(final(out)@ =~= old(out)@ + fixed_point(m as nat, k as nat));
}

fn digit_str(d: u64) -> (r: &'static str)
    requires
        d < 10,
    ensures
        r@ == seq![digit_char(d as nat)],
{
    proof {
        reveal_strlit("0");
        reveal_strlit("1");
        reveal_strlit("2");
        reveal_strlit("3");
        reveal_strlit("4");
        reveal_strlit("5");
        reveal_strlit("6");
        reveal_strlit("7");
        reveal_strlit("8");
        reveal_strlit("9");
    }
    if d == 0 {
        "0"
    } else if d == 1 {
        "1"
    } else if d == 2 {
        "2"
    } else if d == 3 {
        "3"
    } else if d == 4 {
        "4"
    } else if d == 5 {
        "5"
    } else if d == 6 {
        "6"
    } else if d == 7 {
        "7"
    } else if d == 8 {
        "8"
    } else {
        assert(d == 9);
        "9"
    }
}

/// Appends the decimal digits of `n` to `out`.
pub fn push_decimal(n: u64, out: &mut String)
    ensures
        final(out)@ == old(out)@ + decimal(n as nat),
    decreases n,
{
    if n >= 10 {
        push_decimal(n / 10, out);
    }
    out.append(digit_str(n % 10));
    proof {
        if n >= 10 {
            assert(final(out)@ =~= old(out)@ + decimal(n as nat));
        } else {
            assert(final(out)@ =~= old(out)@ + decimal(n as nat));
        }
    }
}

fn magnitude(n: i64) -> (r: u64)
    ensures
        r as int == if n < 0 { -n } else { n as int },
{
    if n < 0 {
        (-(n as i128)) as u64
    } else {
        n as u64
    }
}

/// Appends `n` in decimal, with a minus sign when it is negative.
pub fn push_signed(n: i64, out: &mut String)
    ensures
        final(out)@ == old(out)@ + signed_decimal(n as int),
{
    if n < 0 {
        out.append("-");
    }
    push_decimal(magnitude(n), out);
    assert(final(out)@ =~= old(out)@ + signed_decimal(n as int));
}

/// Appends how the literal `l` is written.
pub fn push_literal(l: &Literal, out: &mut String)
    ensures
        final(out)@ == old(out)@ + literal_text(*l),
{
    match ten_exponent_of(l.den) {
        Some(k) => {
            if l.num >= 0 {
                push_fixed_point(l.num as u64, k, out);
            } else {
                out.append("(-");
                push_fixed_point(magnitude(l.num), k, out);
                out.append(")");
            }
        },
        None => {
            out.append("(");
            push_signed(l.num, out);
            out.append(" / ");
            push_signed(l.den, out);
            out.append(")");
        },
    }
    proof {
        reveal(literal_text);
    }
    assert(final(out)@ =~= old(out)@ + literal_text(*l));
}

/// How a literal is written.
pub fn literal_to_string(l: &Literal) -> (r: String)
    ensures
        r@ == literal_text(*l),
{
    let mut out = String::new();
    push_literal(l, &mut out);
    assert(out@ =~= literal_text(*l));
    out
}

/// The entries of a name map, as character sequences.
pub open spec fn name_pairs(m: Seq<(String, String)>) -> Seq<(Seq<char>, Seq<char>)> {
    m.map_values(|p: (String, String)| (p.0@, p.1@))
}

/// The value of the first entry of `m` at or after `j` whose key is `k`.
pub open spec fn lookup_from(m: Seq<(Seq<char>, Seq<char>)>, k: Seq<char>, j: int) -> Option<
    Seq<char>,
>
    decreases m.len() - j,
{
    if j < 0 || j >= m.len() {
        None
    } else if m[j].0 == k {
        Some(m[j].1)
    } else {
        lookup_from(m, k, j + 1)
    }
}

/// The value that `m` gives the key `k`: that of its first entry with that key.
pub open spec fn lookup_name(m: Seq<(Seq<char>, Seq<char>)>, k: Seq<char>) -> Option<Seq<char>> {
    lookup_from(m, k, 0)
}

pub open spec fn infix(l: Seq<char>, op: Seq<char>, r: Seq<char>) -> Seq<char> {
    "("@ + l + op + r + ")"@
}

/// The name under which a call is written in the scripting runtime.
pub open spec fn script_call_name(n: Seq<char>) -> Seq<char> {
    match func_named(n) {
        Some(f) => script_name(f),
        None => n,
    }
}

/// The approximate comparison that stands for an equality (`cmp` is `" < "`)
/// or an inequality (`cmp` is `" >= "`).
pub open spec fn near(l: Seq<char>, r: Seq<char>, cmp: Seq<char>, eps: Literal) -> Seq<char> {
    "(Math.abs("@ + l + " - "@ + r + ")"@ + cmp + literal_text(eps) + ")"@
}

/// The text of `t` in the scripting runtime: identifiers in `m` become the
/// runtime constants that it names, calls use the runtime's function names,
/// the two-argument logarithm is written by change of base, and equality is
/// compared within `eps`.
pub open spec fn script_text(t: Term, m: Seq<(Seq<char>, Seq<char>)>, eps: Literal) -> Seq<char>
    decreases t,
{
    match t {
        Term::Id(n) => match lookup_name(m, n) {
            Some(c) => c,
            None => n,
        },
        Term::Call(n, args) => if n == "log"@ && args.len() == 2 {
            "(Math.log2("@ + script_text(args[0], m, eps) + ") / Math.log2("@ + script_text(
                args[1],
                m,
                eps,
            ) + "))"@
        } else {
            script_call_name(n) + "("@ + script_list(args, m, eps) + ")"@
        },
        Term::Eq(l, r) => near(script_text(*l, m, eps), script_text(*r, m, eps), " < "@, eps),
        Term::Ne(l, r) => near(script_text(*l, m, eps), script_text(*r, m, eps), " >= "@, eps),
        Term::Lt(l, r) => infix(script_text(*l, m, eps), " < "@, script_text(*r, m, eps)),
        Term::Gt(l, r) => infix(script_text(*l, m, eps), " > "@, script_text(*r, m, eps)),
        Term::Le(l, r) => infix(script_text(*l, m, eps), " <= "@, script_text(*r, m, eps)),
        Term::Ge(l, r) => infix(script_text(*l, m, eps), " >= "@, script_text(*r, m, eps)),
        Term::Add(l, r) => infix(script_text(*l, m, eps), " + "@, script_text(*r, m, eps)),
        Term::Sub(l, r) => infix(script_text(*l, m, eps), " - "@, script_text(*r, m, eps)),
        Term::Mul(l, r) => infix(script_text(*l, m, eps), " * "@, script_text(*r, m, eps)),
        Term::Div(l, r) => infix(script_text(*l, m, eps), " / "@, script_text(*r, m, eps)),
        Term::Mod(l, r) => infix(script_text(*l, m, eps), " % "@, script_text(*r, m, eps)),
        Term::Pow(l, r) => infix(script_text(*l, m, eps), " ** "@, script_text(*r, m, eps)),
        Term::Neg(a) => "(-"@ + script_text(*a, m, eps) + ")"@,
        Term::Lit(x) => literal_text(x),
    }
}

/// The texts of a list of arguments, separated by commas.
pub open spec fn script_list(s: Seq<Term>, m: Seq<(Seq<char>, Seq<char>)>, eps: Literal) -> Seq<
    char,
>
    decreases s,
{
    if s.len() == 0 {
        seq![]
    } else if s.len() == 1 {
        script_text(s[0], m, eps)
    } else {
        script_list(s.subrange(0, s.len() - 1), m, eps) + ", "@ + script_text(s[s.len() - 1], m, eps)
    }
}

/// The text of `t` in the language it was parsed from, fully parenthesized.
pub open spec fn source_text(t: Term) -> Seq<char>
    decreases t,
{
    match t {
        Term::Id(n) => n,
        Term::Call(n, args) => n + "("@ + source_list(args) + ")"@,
        Term::Eq(l, r) => infix(source_text(*l), " = "@, source_text(*r)),
        Term::Ne(l, r) => infix(source_text(*l), " <> "@, source_text(*r)),
        Term::Lt(l, r) => infix(source_text(*l), " < "@, source_text(*r)),
        Term::Gt(l, r) => infix(source_text(*l), " > "@, source_text(*r)),
        Term::Le(l, r) => infix(source_text(*l), " <= "@, source_text(*r)),
        Term::Ge(l, r) => infix(source_text(*l), " >= "@, source_text(*r)),
        Term::Add(l, r) => infix(source_text(*l), " + "@, source_text(*r)),
        Term::Sub(l, r) => infix(source_text(*l), " - "@, source_text(*r)),
        Term::Mul(l, r) => infix(source_text(*l), " * "@, source_text(*r)),
        Term::Div(l, r) => infix(source_text(*l), " / "@, source_text(*r)),
        Term::Mod(l, r) => infix(source_text(*l), " % "@, source_text(*r)),
        Term::Pow(l, r) => infix(source_text(*l), " ^ "@, source_text(*r)),
        Term::Neg(a) => "(-"@ + source_text(*a) + ")"@,
        Term::Lit(x) => literal_text(x),
    }
}

pub open spec fn source_list(s: Seq<Term>) -> Seq<char>
    decreases s,
{
    if s.len() == 0 {
        seq![]
    } else if s.len() == 1 {
        source_text(s[0])
    } else {
        source_list(s.subrange(0, s.len() - 1)) + ", "@ + source_text(s[s.len() - 1])
    }
}

/// Finds the runtime constant that `names` gives `id`.
fn lookup_constant<'a>(names: &'a Vec<(String, String)>, id: &String) -> (r: Option<&'a String>)
    ensures
        r matches Some(c) ==> lookup_name(name_pairs(names@), id@) == Some(c@),
        r is None ==> lookup_name(name_pairs(names@), id@) is None,
{
    let ghost m = name_pairs(names@);
    let mut j: usize = 0;
    while j < names.len()
        invariant
            m == name_pairs(names@),
            j <= names@.len(),
            lookup_from(m, id@, j as int) == lookup_from(m, id@, 0),
        decreases names@.len() - j,
    {
        assert(m[j as int] == (names@[j as int].0@, names@[j as int].1@));
        if names[j].0 == *id {
            return Some(&names[j].1);
        }
        j = j + 1;
    }
    None
}

/// Appends the text of `e` in the scripting runtime.
pub fn emit_script(e: &Expr, names: &Vec<(String, String)>, eps: &Literal, out: &mut String)
    ensures
        final(out)@ == old(out)@ + script_text(e@, name_pairs(names@), *eps),
    decreases e,
{
    let ghost m = name_pairs(names@);
    match e {
        Expr::Id(id) => {
            match lookup_constant(names, id) {
                Some(c) => out.append(c.as_str()),
                None => out.append(id.as_str()),
            }
        },
        Expr::Call(name, args) => {
            proof {
                lemma_terms_of_len(args@);
            }
            if str_equal(name.as_str(), "log") && args.len() == 2 {
                proof {
                    lemma_terms_of_index(args@, 0);
                    lemma_terms_of_index(args@, 1);
                }
                assert(decreases_to!(args => args@[0]));
                assert(decreases_to!(args => args@[1]));
                out.append("(Math.log2(");
                emit_script(&args[0], names, eps, out);
                out.append(") / Math.log2(");
                emit_script(&args[1], names, eps, out);
                out.append("))");
            } else {
                match Func::lookup(name.as_str()) {
                    Some(f) => out.append(f.script_name()),
                    None => out.append(name.as_str()),
                }
                out.append("(");
                emit_script_list(args, names, eps, out);
                out.append(")");
            }
        },
        Expr::Eq(l, r) => {
            out.append("(Math.abs(");
            emit_script(l, names, eps, out);
            out.append(" - ");
            emit_script(r, names, eps, out);
            out.append(")");
            out.append(" < ");
            push_literal(eps, out);
            out.append(")");
        },
        Expr::Ne(l, r) => {
            out.append("(Math.abs(");
            emit_script(l, names, eps, out);
            out.append(" - ");
            emit_script(r, names, eps, out);
            out.append(")");
            out.append(" >= ");
            push_literal(eps, out);
            out.append(")");
        },
        Expr::Lt(l, r) => {
            out.append("(");
            emit_script(l, names, eps, out);
            out.append(" < ");
            emit_script(r, names, eps, out);
            out.append(")");
        },
        Expr::Gt(l, r) => {
            out.append("(");
            emit_script(l, names, eps, out);
            out.append(" > ");
            emit_script(r, names, eps, out);
            out.append(")");
        },
        Expr::Le(l, r) => {
            out.append("(");
            emit_script(l, names, eps, out);
            out.append(" <= ");
            emit_script(r, names, eps, out);
            out.append(")");
        },
        Expr::Ge(l, r) => {
            out.append("(");
            emit_script(l, names, eps, out);
            out.append(" >= ");
            emit_script(r, names, eps, out);
            out.append(")");
        },
        Expr::Add(l, r) => {
            out.append("(");
            emit_script(l, names, eps, out);
            out.append(" + ");
            emit_script(r, names, eps, out);
            out.append(")");
        },
        Expr::Sub(l, r) => {
            out.append("(");
            emit_script(l, names, eps, out);
            out.append(" - ");
            emit_script(r, names, eps, out);
            out.append(")");
        },
        Expr::Mul(l, r) => {
            out.append("(");
            emit_script(l, names, eps, out);
            out.append(" * ");
            emit_script(r, names, eps, out);
            out.append(")");
        },
        Expr::Div(l, r) => {
            out.append("(");
            emit_script(l, names, eps, out);
            out.append(" / ");
            emit_script(r, names, eps, out);
            out.append(")");
        },
        Expr::Mod(l, r) => {
            out.append("(");
            emit_script(l, names, eps, out);
            out.append(" % ");
            emit_script(r, names, eps, out);
            out.append(")");
        },
        Expr::Pow(l, r) => {
            out.append("(");
            emit_script(l, names, eps, out);
            out.append(" ** ");
            emit_script(r, names, eps, out);
            out.append(")");
        },
        Expr::Neg(a) => {
            out.append("(-");
            emit_script(a, names, eps, out);
            out.append(")");
        },
        Expr::Literal(x) => {
            push_literal(x, out);
        },
    }
    assert(final(out)@ =~= old(out)@ + script_text(e@, m, *eps));
}

/// Appends the texts of `args`, separated by commas.
fn emit_script_list(args: &Vec<Expr>, names: &Vec<(String, String)>, eps: &Literal, out: &mut String)
    ensures
        final(out)@ == old(out)@ + script_list(terms_of(args@), name_pairs(names@), *eps),
    decreases args,
{
    let ghost m = name_pairs(names@);
    let ghost ts = terms_of(args@);
    proof {
        lemma_terms_of_len(args@);
    }
    let mut i: usize = 0;
    while i < args.len()
        invariant
            ts == terms_of(args@),
            ts.len() == args@.len(),
            m == name_pairs(names@),
            i <= args@.len(),
            out@ == old(out)@ + script_list(ts.subrange(0, i as int), m, *eps),
        decreases args@.len() - i,
    {
        proof {
            lemma_terms_of_index(args@, i as int);
        }
        assert(decreases_to!(args => args@[i as int]));
        let ghost before = out@;
        if i > 0 {
            out.append(", ");
        }
        emit_script(&args[i], names, eps, out);
        proof {
            let p = ts.subrange(0, i + 1);
            assert(p.subrange(0, i as int) =~= ts.subrange(0, i as int));
            assert(p[i as int] == ts[i as int]);
            if i == 0 {
                assert(ts.subrange(0, 0) =~= Seq::<Term>::empty());
                assert(out@ =~= old(out)@ + script_list(p, m, *eps));
            } else {
                assert(out@ =~= old(out)@ + script_list(p, m, *eps));
            }
        }
        i = i + 1;
    }
    assert(ts.subrange(0, i as int) =~= ts);
}

/// The text of `ast` in the scripting runtime, fully parenthesized.
/// Identifiers found in `constant_name_map` are written as the runtime
/// constants it names; an equality holds when its sides differ by less than
/// `equality_approximate_threshold`.
pub fn transplie_to_js(
    ast: &Expr,
    constant_name_map: &Vec<(String, String)>,
    equality_approximate_threshold: &Literal,
) -> (r: String)
    ensures
        r@ == script_text(ast@, name_pairs(constant_name_map@), *equality_approximate_threshold),
{
    let mut out = String::new();
    emit_script(ast, constant_name_map, equality_approximate_threshold, &mut out);
    assert(out@ =~= script_text(ast@, name_pairs(constant_name_map@), *equality_approximate_threshold));
    out
}

/// Appends the source text of `e`.
pub fn emit_source(e: &Expr, out: &mut String)
    ensures
        final(out)@ == old(out)@ + source_text(e@),
    decreases e,
{
    match e {
        Expr::Id(id) => {
            out.append(id.as_str());
        },
        Expr::Call(name, args) => {
            out.append(name.as_str());
            out.append("(");
            emit_source_list(args, out);
            out.append(")");
        },
        Expr::Eq(l, r) => {
            out.append("(");
            emit_source(l, out);
            out.append(" = ");
            emit_source(r, out);
            out.append(")");
        },
        Expr::Ne(l, r) => {
            out.append("(");
            emit_source(l, out);
            out.append(" <> ");
            emit_source(r, out);
            out.append(")");
        },
        Expr::Lt(l, r) => {
            out.append("(");
            emit_source(l, out);
            out.append(" < ");
            emit_source(r, out);
            out.append(")");
        },
        Expr::Gt(l, r) => {
            out.append("(");
            emit_source(l, out);
            out.append(" > ");
            emit_source(r, out);
            out.append(")");
        },
        Expr::Le(l, r) => {
            out.append("(");
            emit_source(l, out);
            out.append(" <= ");
            emit_source(r, out);
            out.append(")");
        },
        Expr::Ge(l, r) => {
            out.append("(");
            emit_source(l, out);
            out.append(" >= ");
            emit_source(r, out);
            out.append(")");
        },
        Expr::Add(l, r) => {
            out.append("(");
            emit_source(l, out);
            out.append(" + ");
            emit_source(r, out);
            out.append(")");
        },
        Expr::Sub(l, r) => {
            out.append("(");
            emit_source(l, out);
            out.append(" - ");
            emit_source(r, out);
            out.append(")");
        },
        Expr::Mul(l, r) => {
            out.append("(");
            emit_source(l, out);
            out.append(" * ");
            emit_source(r, out);
            out.append(")");
        },
        Expr::Div(l, r) => {
            out.append("(");
            emit_source(l, out);
            out.append(" / ");
            emit_source(r, out);
            out.append(")");
        },
        Expr::Mod(l, r) => {
            out.append("(");
            emit_source(l, out);
            out.append(" % ");
            emit_source(r, out);
            out.append(")");
        },
        Expr::Pow(l, r) => {
            out.append("(");
            emit_source(l, out);
            out.append(" ^ ");
            emit_source(r, out);
            out.append(")");
        },
        Expr::Neg(a) => {
            out.append("(-");
            emit_source(a, out);
            out.append(")");
        },
        Expr::Literal(x) => {
            push_literal(x, out);
        },
    }
    assert(final(out)@ =~= old(out)@ + source_text(e@));
}

fn emit_source_list(args: &Vec<Expr>, out: &mut String)
    ensures
        final(out)@ == old(out)@ + source_list(terms_of(args@)),
    decreases args,
{
    let ghost ts = terms_of(args@);
    proof {
        lemma_terms_of_len(args@);
    }
    let mut i: usize = 0;
    while i < args.len()
        invariant
            ts == terms_of(args@),
            ts.len() == args@.len(),
            i <= args@.len(),
            out@ == old(out)@ + source_list(ts.subrange(0, i as int)),
        decreases args@.len() - i,
    {
        proof {
            lemma_terms_of_index(args@, i as int);
        }
        assert(decreases_to!(args => args@[i as int]));
        if i > 0 {
            out.append(", ");
        }
        emit_source(&args[i], out);
        proof {
            let p = ts.subrange(0, i + 1);
            assert(p.subrange(0, i as int) =~= ts.subrange(0, i as int));
            assert(p[i as int] == ts[i as int]);
            if i == 0 {
                assert(ts.subrange(0, 0) =~= Seq::<Term>::empty());
                assert(out@ =~= old(out)@ + source_list(p));
            } else {
                assert(out@ =~= old(out)@ + source_list(p));
            }
        }
        i = i + 1;
    }
    assert(ts.subrange(0, i as int) =~= ts);
}

/// The source text of `expr`, fully parenthesized.
pub fn ast_to_string(expr: &Expr) -> (r: String)
    ensures
        r@ == source_text(expr@),
{
    let mut out = String::new();
    emit_source(expr, &mut out);
    assert(out@ =~= source_text(expr@));
    out
}

} // verus!
