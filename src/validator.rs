use vstd::prelude::*;
use vstd::string::*;
use crate::ast::{Expr, Term, lemma_terms_of_index, lemma_terms_of_len, relation_count, relation_count_seq, terms_of};
use crate::diagnostic::{Diagnostic, Level, report};
use crate::registry::{Func, func_named};

verus! {

/// The characters of each string.
pub open spec fn names(v: Seq<String>) -> Seq<Seq<char>> {
    v.map_values(|s: String| s@)
}

/// The identifiers that `t` references, in order, with repetitions.
pub open spec fn ids_of(t: Term) -> Seq<Seq<char>>
    decreases t,
{
    match t {
        Term::Eq(l, r) => ids_of(*l) + ids_of(*r),
        Term::Ne(l, r) => ids_of(*l) + ids_of(*r),
        Term::Lt(l, r) => ids_of(*l) + ids_of(*r),
        Term::Gt(l, r) => ids_of(*l) + ids_of(*r),
        Term::Le(l, r) => ids_of(*l) + ids_of(*r),
        Term::Ge(l, r) => ids_of(*l) + ids_of(*r),
        Term::Neg(a) => ids_of(*a),
        Term::Add(l, r) => ids_of(*l) + ids_of(*r),
        Term::Sub(l, r) => ids_of(*l) + ids_of(*r),
        Term::Mul(l, r) => ids_of(*l) + ids_of(*r),
        Term::Div(l, r) => ids_of(*l) + ids_of(*r),
        Term::Mod(l, r) => ids_of(*l) + ids_of(*r),
        Term::Pow(l, r) => ids_of(*l) + ids_of(*r),
        Term::Call(_, args) => ids_of_list(args),
        Term::Id(n) => seq![n],
        Term::Lit(_) => seq![],
    }
}

pub open spec fn ids_of_list(s: Seq<Term>) -> Seq<Seq<char>>
    decreases s,
{
    if s.len() == 0 {
        seq![]
    } else {
        ids_of_list(s.subrange(0, s.len() - 1)) + ids_of(s[s.len() - 1])
    }
}

/// The names that `t` calls, in order, with repetitions.
pub open spec fn calls_of(t: Term) -> Seq<Seq<char>>
    decreases t,
{
    match t {
        Term::Eq(l, r) => calls_of(*l) + calls_of(*r),
        Term::Ne(l, r) => calls_of(*l) + calls_of(*r),
        Term::Lt(l, r) => calls_of(*l) + calls_of(*r),
        Term::Gt(l, r) => calls_of(*l) + calls_of(*r),
        Term::Le(l, r) => calls_of(*l) + calls_of(*r),
        Term::Ge(l, r) => calls_of(*l) + calls_of(*r),
        Term::Neg(a) => calls_of(*a),
        Term::Add(l, r) => calls_of(*l) + calls_of(*r),
        Term::Sub(l, r) => calls_of(*l) + calls_of(*r),
        Term::Mul(l, r) => calls_of(*l) + calls_of(*r),
        Term::Div(l, r) => calls_of(*l) + calls_of(*r),
        Term::Mod(l, r) => calls_of(*l) + calls_of(*r),
        Term::Pow(l, r) => calls_of(*l) + calls_of(*r),
        Term::Call(n, args) => seq![n] + calls_of_list(args),
        Term::Id(_) => seq![],
        Term::Lit(_) => seq![],
    }
}

pub open spec fn calls_of_list(s: Seq<Term>) -> Seq<Seq<char>>
    decreases s,
{
    if s.len() == 0 {
        seq![]
    } else {
        calls_of_list(s.subrange(0, s.len() - 1)) + calls_of(s[s.len() - 1])
    }
}

/// The first of `ids`, from position `i` on, that `binds` lacks.
pub open spec fn first_unbound_from(ids: Seq<Seq<char>>, binds: Seq<Seq<char>>, i: int) -> Option<
    Seq<char>,
>
    decreases ids.len() - i,
{
    if i < 0 || i >= ids.len() {
        None
    } else if !binds.contains(ids[i]) {
        Some(ids[i])
    } else {
        first_unbound_from(ids, binds, i + 1)
    }
}

pub open spec fn not_defined(n: Seq<char>) -> (Level, Seq<char>) {
    (Level::Error, "Variable "@ + n + " is not defined"@)
}

pub open spec fn not_used(n: Seq<char>) -> (Level, Seq<char>) {
    (Level::Warning, "Variable "@ + n + " is not used"@)
}

pub open spec fn unknown_function(n: Seq<char>) -> (Level, Seq<char>) {
    (Level::Error, "Function "@ + n + " is not defined"@)
}

pub open spec fn relation_misused() -> (Level, Seq<char>) {
    (Level::Error, "relation expression must be used once"@)
}

/// A warning for each binding that `ids` does not reference, in the order
/// of the bindings.
pub open spec fn unused_warnings(binds: Seq<Seq<char>>, ids: Seq<Seq<char>>) -> Seq<
    (Level, Seq<char>),
>
    decreases binds.len(),
{
    if binds.len() == 0 {
        seq![]
    } else {
        let last = binds[binds.len() - 1];
        unused_warnings(binds.subrange(0, binds.len() - 1), ids) + if ids.contains(last) {
            seq![]
        } else {
            seq![not_used(last)]
        }
    }
}

/// An error for each call of a name that the registry lacks.
pub open spec fn unknown_call_errors(calls: Seq<Seq<char>>) -> Seq<(Level, Seq<char>)>
    decreases calls.len(),
{
    if calls.len() == 0 {
        seq![]
    } else {
        let last = calls[calls.len() - 1];
        unknown_call_errors(calls.subrange(0, calls.len() - 1)) + if func_named(last) is None {
            seq![unknown_function(last)]
        } else {
            seq![]
        }
    }
}

/// What validating `t` against the bound names `binds` reports. An unbound
/// identifier stops the run with one error; otherwise come the warnings for
/// unused bindings, the errors for unknown functions, and an error when the
/// tree does not hold exactly one relational node.
pub open spec fn validation_report(t: Term, binds: Seq<Seq<char>>) -> Seq<(Level, Seq<char>)> {
    match first_unbound_from(ids_of(t), binds, 0) {
        Some(n) => seq![not_defined(n)],
        None => unused_warnings(binds, ids_of(t)) + unknown_call_errors(calls_of(t)) + if relation_count(
            t,
        ) == 1 {
            seq![]
        } else {
            seq![relation_misused()]
        },
    }
}

/// Whether `t` passes validation against the bound names `binds`.
pub open spec fn validation_passes(t: Term, binds: Seq<Seq<char>>) -> bool {
    &&& first_unbound_from(ids_of(t), binds, 0) is None
    &&& unknown_call_errors(calls_of(t)).len() == 0
    &&& relation_count(t) == 1
}

proof fn lemma_report_push(s: Seq<Diagnostic>, d: Diagnostic)
    ensures
        report(s.push(d)) == report(s).push(d@),
{
    assert(report(s.push(d)) =~= report(s).push(d@));
}

proof fn lemma_names_push(s: Seq<String>, x: String)
    ensures
        names(s.push(x)) == names(s).push(x@),
{
    assert(names(s.push(x)) =~= names(s).push(x@));
}

/// The identifiers and the called names of a tree.
pub struct IdTable {
    pub ids: Vec<String>,
    pub called_ids: Vec<String>,
}

fn collect_names(e: &Expr, ids: &mut Vec<String>, calls: &mut Vec<String>)
    ensures
        names(final(ids)@) == names(old(ids)@) + ids_of(e@),
        names(final(calls)@) == names(old(calls)@) + calls_of(e@),
    decreases e,
{
    match e {
        Expr::Eq(l, r) | Expr::Ne(l, r) | Expr::Lt(l, r) | Expr::Gt(l, r) | Expr::Le(l, r) | Expr::Ge(
            l,
            r,
        ) | Expr::Add(l, r) | Expr::Sub(l, r) | Expr::Mul(l, r) | Expr::Div(l, r) | Expr::Mod(l, r)
        | Expr::Pow(l, r) => {
            collect_names(l, ids, calls);
            collect_names(r, ids, calls);
            assert(names(ids@) =~= names(old(ids)@) + ids_of(e@));
            assert(names(calls@) =~= names(old(calls)@) + calls_of(e@));
        },
        Expr::Neg(a) => {
            collect_names(a, ids, calls);
        },
        Expr::Call(name, args) => {
            let c = name.clone();
            proof {
                lemma_names_push(calls@, c);
            }
            calls.push(c);
            collect_names_in(args, ids, calls);
            assert(names(ids@) =~= names(old(ids)@) + ids_of(e@));
            assert(names(calls@) =~= names(old(calls)@) + calls_of(e@));
        },
        Expr::Id(name) => {
            let c = name.clone();
            proof {
                lemma_names_push(ids@, c);
            }
            ids.push(c);
            assert(names(ids@) =~= names(old(ids)@) + ids_of(e@));
            assert(names(calls@) =~= names(old(calls)@) + calls_of(e@));
        },
        Expr::Literal(_) => {
            assert(names(ids@) =~= names(old(ids)@) + ids_of(e@));
            assert(names(calls@) =~= names(old(calls)@) + calls_of(e@));
        },
    }
}

fn collect_names_in(args: &Vec<Expr>, ids: &mut Vec<String>, calls: &mut Vec<String>)
    ensures
        names(final(ids)@) == names(old(ids)@) + ids_of_list(terms_of(args@)),
        names(final(calls)@) == names(old(calls)@) + calls_of_list(terms_of(args@)),
    decreases args,
{
    let ghost ts = terms_of(args@);
    proof {
        lemma_terms_of_len(args@);
    }
    let mut i: usize = 0;
    assert(ts.subrange(0, 0) =~= Seq::<Term>::empty());
    assert(names(ids@) =~= names(old(ids)@) + ids_of_list(ts.subrange(0, 0)));
    assert(names(calls@) =~= names(old(calls)@) + calls_of_list(ts.subrange(0, 0)));
    while i < args.len()
        invariant
            ts == terms_of(args@),
            ts.len() == args@.len(),
            i <= args@.len(),
            names(ids@) == names(old(ids)@) + ids_of_list(ts.subrange(0, i as int)),
            names(calls@) == names(old(calls)@) + calls_of_list(ts.subrange(0, i as int)),
        decreases args@.len() - i,
    {
        proof {
            lemma_terms_of_index(args@, i as int);
            let p = ts.subrange(0, i + 1);
            assert(p.subrange(0, i as int) =~= ts.subrange(0, i as int));
        }
        assert(decreases_to!(args => args@[i as int]));
        collect_names(&args[i], ids, calls);
        assert(names(ids@) =~= names(old(ids)@) + ids_of_list(ts.subrange(0, i + 1)));
        assert(names(calls@) =~= names(old(calls)@) + calls_of_list(ts.subrange(0, i + 1)));
        i = i + 1;
    }
    assert(ts.subrange(0, i as int) =~= ts);
}

/// The identifiers and the called names of `ast`, in order.
pub fn make_id_list(ast: &Expr) -> (r: IdTable)
    ensures
        names(r.ids@) == ids_of(ast@),
        names(r.called_ids@) == calls_of(ast@),
{
    let mut ids: Vec<String> = Vec::new();
    let mut calls: Vec<String> = Vec::new();
    assert(names(ids@) =~= Seq::<Seq<char>>::empty());
    assert(names(calls@) =~= Seq::<Seq<char>>::empty());
    collect_names(ast, &mut ids, &mut calls);
    assert(names(ids@) =~= ids_of(ast@));
    assert(names(calls@) =~= calls_of(ast@));
    IdTable { ids, called_ids: calls }
}

/// How many relational nodes `ast` holds, counted up to two.
pub fn count_relations(ast: &Expr) -> (r: usize)
    ensures
        r == if relation_count(ast@) < 2 { relation_count(ast@) } else { 2 },
    decreases ast,
{
    let n: usize = match ast {
        Expr::Eq(l, r) | Expr::Ne(l, r) | Expr::Lt(l, r) | Expr::Gt(l, r) | Expr::Le(l, r)
        | Expr::Ge(l, r) => 1 + count_relations(l) + count_relations(r),
        Expr::Add(l, r) | Expr::Sub(l, r) | Expr::Mul(l, r) | Expr::Div(l, r) | Expr::Mod(l, r)
        | Expr::Pow(l, r) => count_relations(l) + count_relations(r),
        Expr::Neg(a) => count_relations(a),
        Expr::Call(_, args) => count_relations_in(args),
        Expr::Id(_) => 0,
        Expr::Literal(_) => 0,
    };
    if n < 2 {
        n
    } else {
        2
    }
}

fn count_relations_in(args: &Vec<Expr>) -> (r: usize)
    ensures
        r == if relation_count_seq(terms_of(args@)) < 2 {
            relation_count_seq(terms_of(args@))
        } else {
            2
        },
    decreases args,
{
    let ghost ts = terms_of(args@);
    proof {
        lemma_terms_of_len(args@);
    }
    let mut n: usize = 0;
    let mut i: usize = 0;
    assert(ts.subrange(0, 0) =~= Seq::<Term>::empty());
    while i < args.len()
        invariant
            ts == terms_of(args@),
            ts.len() == args@.len(),
            i <= args@.len(),
            n == if relation_count_seq(ts.subrange(0, i as int)) < 2 {
                relation_count_seq(ts.subrange(0, i as int))
            } else {
                2
            },
        decreases args@.len() - i,
    {
        proof {
            lemma_terms_of_index(args@, i as int);
            let p = ts.subrange(0, i + 1);
            assert(p.subrange(0, i as int) =~= ts.subrange(0, i as int));
        }
        assert(decreases_to!(args => args@[i as int]));
        let c = count_relations(&args[i]);
        n = if n + c < 2 {
            n + c
        } else {
            2
        };
        i = i + 1;
    }
    assert(ts.subrange(0, i as int) =~= ts);
    n
}

/// Whether `v` holds a string with the characters of `n`.
pub fn contains_name(v: &Vec<String>, n: &String) -> (r: bool)
    ensures
        r == names(v@).contains(n@),
{
    let mut i: usize = 0;
    while i < v.len()
        invariant
            i <= v@.len(),
            forall|k: int| 0 <= k < i ==> names(v@)[k] != n@,
        decreases v@.len() - i,
    {
        if v[i] == *n {
            assert(names(v@)[i as int] == n@);
            return true;
        }
        i = i + 1;
    }
    false
}

fn message(prefix: &str, name: &str, suffix: &str) -> (r: String)
    ensures
        r@ == prefix@ + name@ + suffix@,
{
    let mut s = String::from_str(prefix);
    s.append(name);
    s.append(suffix);
    s
}

/// Checks `ast` against the names bound in `variables`, which are distinct,
/// and appends what it finds to `sink` (see `validation_report`). Returns
/// whether no error was found.
pub fn validate_equation(ast: &Expr, variables: &Vec<String>, sink: &mut Vec<Diagnostic>) -> (r:
    bool)
    requires
        names(variables@).no_duplicates(),
    ensures
        report(final(sink)@) == report(old(sink)@) + validation_report(ast@, names(variables@)),
        r == validation_passes(ast@, names(variables@)),
{
    let ghost binds = names(variables@);
    let table = make_id_list(ast);
    let ghost ids = ids_of(ast@);
    let mut i: usize = 0;
    while i < table.ids.len()
        invariant
            names(table.ids@) == ids,
            ids == ids_of(ast@),
            binds == names(variables@),
            i <= table.ids@.len(),
            first_unbound_from(ids, binds, i as int) == first_unbound_from(ids, binds, 0),
            sink@ == old(sink)@,
        decreases table.ids@.len() - i,
    {
        assert(ids[i as int] == table.ids@[i as int]@);
        if !contains_name(variables, &table.ids[i]) {
            let d = Diagnostic::new(
                Level::Error,
                message("Variable ", table.ids[i].as_str(), " is not defined"),
            );
            proof {
                lemma_report_push(sink@, d);
            }
            sink.push(d);
            assert(first_unbound_from(ids, binds, i as int) == Some(ids[i as int]));
            assert(report(sink@) =~= report(old(sink)@) + validation_report(ast@, binds));
            return false;
        }
        i = i + 1;
    }
    let mut j: usize = 0;
    assert(report(sink@) + unused_warnings(binds.subrange(0, 0), ids) =~= report(old(sink)@));
    while j < variables.len()
        invariant
            names(table.ids@) == ids,
            ids == ids_of(ast@),
            binds == names(variables@),
            j <= variables@.len(),
            report(sink@) == report(old(sink)@) + unused_warnings(binds.subrange(0, j as int), ids),
        decreases variables@.len() - j,
    {
        let ghost before = report(sink@);
        proof {
            let p = binds.subrange(0, j + 1);
            assert(p.subrange(0, j as int) =~= binds.subrange(0, j as int));
            assert(p[j as int] == variables@[j as int]@);
        }
        if !contains_name(&table.ids, &variables[j]) {
            let d = Diagnostic::new(
                Level::Warning,
                message("Variable ", variables[j].as_str(), " is not used"),
            );
            proof {
                lemma_report_push(sink@, d);
            }
            sink.push(d);
        }
        assert(report(sink@) =~= report(old(sink)@) + unused_warnings(
            binds.subrange(0, j + 1),
            ids,
        ));
        j = j + 1;
    }
    assert(binds.subrange(0, j as int) =~= binds);
    let ghost calls = calls_of(ast@);
    let ghost mid = report(sink@);
    let mut ok = true;
    let mut k: usize = 0;
    assert(calls.subrange(0, 0) =~= Seq::<Seq<char>>::empty());
    assert(mid + unknown_call_errors(calls.subrange(0, 0)) =~= mid);
    while k < table.called_ids.len()
        invariant
            names(table.called_ids@) == calls,
            calls == calls_of(ast@),
            k <= table.called_ids@.len(),
            report(sink@) == mid + unknown_call_errors(calls.subrange(0, k as int)),
            ok == (unknown_call_errors(calls.subrange(0, k as int)).len() == 0),
        decreases table.called_ids@.len() - k,
    {
        proof {
            let p = calls.subrange(0, k + 1);
            assert(p.subrange(0, k as int) =~= calls.subrange(0, k as int));
            assert(p[k as int] == table.called_ids@[k as int]@);
        }
        if Func::lookup(table.called_ids[k].as_str()).is_none() {
            let d = Diagnostic::new(
                Level::Error,
                message("Function ", table.called_ids[k].as_str(), " is not defined"),
            );
            proof {
                lemma_report_push(sink@, d);
            }
            sink.push(d);
            ok = false;
        }
        assert(report(sink@) =~= mid + unknown_call_errors(calls.subrange(0, k + 1)));
        k = k + 1;
    }
    assert(calls.subrange(0, k as int) =~= calls);
    let ghost mid2 = report(sink@);
    if count_relations(ast) != 1 {
        let d = Diagnostic::new(Level::Error, String::from_str("relation expression must be used once"));
        proof {
            lemma_report_push(sink@, d);
        }
        sink.push(d);
        ok = false;
        assert(report(sink@) =~= report(old(sink)@) + validation_report(ast@, binds));
    } else {
        assert(report(sink@) =~= report(old(sink)@) + validation_report(ast@, binds));
    }
    ok
}

proof fn lemma_unused_are_warnings(binds: Seq<Seq<char>>, ids: Seq<Seq<char>>)
    ensures
        forall|k: int|
            0 <= k < unused_warnings(binds, ids).len() ==> (#[trigger] unused_warnings(binds, ids)[k]).0
                == Level::Warning,
    decreases binds.len(),
{
    if binds.len() > 0 {
        lemma_unused_are_warnings(binds.subrange(0, binds.len() - 1), ids);
    }
}

proof fn lemma_unknown_are_errors(calls: Seq<Seq<char>>)
    ensures
        forall|k: int|
            0 <= k < unknown_call_errors(calls).len() ==> (#[trigger] unknown_call_errors(calls)[k]).0
                == Level::Error,
    decreases calls.len(),
{
    if calls.len() > 0 {
        lemma_unknown_are_errors(calls.subrange(0, calls.len() - 1));
    }
}

/// Validation passes exactly when the run reports no error: warnings alone
/// do not fail it.
pub proof fn lemma_passes_iff_no_error(t: Term, binds: Seq<Seq<char>>)
    ensures
        validation_passes(t, binds) <==> (forall|k: int|
            0 <= k < validation_report(t, binds).len() ==> (#[trigger] validation_report(
                t,
                binds,
            )[k]).0 != Level::Error),
{
    let ids = ids_of(t);
    let w = unused_warnings(binds, ids);
    let u = unknown_call_errors(calls_of(t));
    let rep = validation_report(t, binds);
    lemma_unused_are_warnings(binds, ids);
    lemma_unknown_are_errors(calls_of(t));
    if first_unbound_from(ids, binds, 0) is Some {
        assert(rep[0].0 == Level::Error);
    } else {
        let rel: Seq<(Level, Seq<char>)> = if relation_count(t) == 1 {
            seq![]
        } else {
            seq![relation_misused()]
        };
        assert(rep == w + u + rel);
        if u.len() > 0 {
            assert(rep[w.len() as int] == u[0]);
        } else if relation_count(t) != 1 {
            assert(rep[rep.len() - 1] == relation_misused());
        } else {
            assert forall|k: int| 0 <= k < rep.len() implies (#[trigger] rep[k]).0 != Level::Error by {
                assert(rep[k] == w[k]);
            }
        }
    }
}

} // verus!
