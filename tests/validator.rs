use epp::ast::Expr;
use epp::diagnostic::{Diagnostic, Level};
use epp::parser::{create_binary_op_precedence, parse};
use epp::validator::{count_relations, make_id_list, validate_equation};

fn tree(s: &str) -> Expr {
    let mut sink = Vec::new();
    parse(s, create_binary_op_precedence(), &mut sink).unwrap()
}

fn names(v: &[&str]) -> Vec<String> {
    v.iter().map(|s| s.to_string()).collect()
}

#[test]
fn bound_variable_used_once_passes_silently() {
    let mut sink: Vec<Diagnostic> = Vec::new();
    assert!(validate_equation(&tree("x = 1"), &names(&["x"]), &mut sink));
    assert!(sink.is_empty());
}

#[test]
fn unused_binding_warns() {
    let mut sink: Vec<Diagnostic> = Vec::new();
    assert!(validate_equation(&tree("x = 1"), &names(&["x", "y"]), &mut sink));
    assert_eq!(sink.len(), 1);
    assert_eq!(sink[0].level(), Level::Warning);
    assert_eq!(sink[0].message(), "Variable y is not used");
}

#[test]
fn unbound_identifier_fails() {
    let mut sink: Vec<Diagnostic> = Vec::new();
    assert!(!validate_equation(&tree("z = 1"), &names(&["x"]), &mut sink));
    assert_eq!(sink.len(), 1);
    assert_eq!(sink[0].level(), Level::Error);
    assert!(sink[0].message().contains('z'));
    assert_eq!(sink[0].message(), "Variable z is not defined");
}

#[test]
fn two_relations_fail() {
    let mut sink: Vec<Diagnostic> = Vec::new();
    assert!(!validate_equation(&tree("x < y < z"), &names(&["x", "y", "z"]), &mut sink));
    assert_eq!(sink.len(), 1);
    assert_eq!(sink[0].level(), Level::Error);
    assert_eq!(sink[0].message(), "relation expression must be used once");
}

#[test]
fn no_relation_fails() {
    let mut sink: Vec<Diagnostic> = Vec::new();
    assert!(!validate_equation(&tree("x + 1"), &names(&["x"]), &mut sink));
    assert_eq!(sink[0].message(), "relation expression must be used once");
}

#[test]
fn unknown_function_fails_and_checks_go_on() {
    let mut sink: Vec<Diagnostic> = Vec::new();
    assert!(!validate_equation(&tree("foo(x) + 1"), &names(&["x", "w"]), &mut sink));
    assert_eq!(sink.len(), 3);
    assert_eq!(sink[0].message(), "Variable w is not used");
    assert_eq!(sink[1].level(), Level::Error);
    assert_eq!(sink[1].message(), "Function foo is not defined");
    assert_eq!(sink[2].message(), "relation expression must be used once");
}

#[test]
fn known_functions_pass() {
    let mut sink: Vec<Diagnostic> = Vec::new();
    assert!(validate_equation(&tree("sin(x) + atan2(y, x) <= max(1, y)"), &names(&["x", "y"]), &mut sink));
    assert!(sink.is_empty());
}

#[test]
fn diagnostics_accumulate_until_cleared() {
    let mut sink: Vec<Diagnostic> = Vec::new();
    validate_equation(&tree("x = 1"), &names(&["x", "y"]), &mut sink);
    validate_equation(&tree("x = 1"), &names(&["x", "q"]), &mut sink);
    assert_eq!(Diagnostic::diagnostics(&sink).len(), 2);
    Diagnostic::clear(&mut sink);
    assert!(sink.is_empty());
    Diagnostic::push_new(&mut sink, Diagnostic::new(Level::Warning, "note".to_string()));
    assert_eq!(Diagnostic::diagnostics(&sink)[0].message(), "note");
}

#[test]
fn id_list_in_order() {
    let t = make_id_list(&tree("f(a, b) + a < g(c)"));
    assert_eq!(t.ids, names(&["a", "b", "a", "c"]));
    assert_eq!(t.called_ids, names(&["f", "g"]));
}

#[test]
fn relations_are_counted_anywhere() {
    assert_eq!(count_relations(&tree("x + 1")), 0);
    assert_eq!(count_relations(&tree("x = 1")), 1);
    assert_eq!(count_relations(&tree("f(x < 1) = 1")), 2);
    assert_eq!(count_relations(&tree("x < 1 < 2 < 3")), 2);
}
