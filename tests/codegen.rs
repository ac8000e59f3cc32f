use epp::ast::{Expr, Literal};
use epp::codegen::{ast_to_string, literal_to_string, transplie_to_js};
use epp::parser::{create_binary_op_precedence, parse};
use epp::registry::Func;

fn tree(s: &str) -> Expr {
    let mut sink = Vec::new();
    parse(s, create_binary_op_precedence(), &mut sink).unwrap()
}

fn eps() -> Literal {
    Literal::new(1, 1000)
}

fn js(s: &str) -> String {
    transplie_to_js(&tree(s), &Vec::new(), &eps())
}

#[test]
fn equality_is_approximate() {
    assert_eq!(js("x + 1 = 2"), "(Math.abs((x + 1) - 2) < 0.001)");
}

#[test]
fn ordering_is_direct() {
    assert_eq!(js("x < y"), "(x < y)");
    assert_eq!(js("x >= y"), "(x >= y)");
    assert_eq!(js("x <> y"), "(Math.abs(x - y) >= 0.001)");
}

#[test]
fn arithmetic_is_parenthesized() {
    assert_eq!(js("1 - 2 * x ^ 3 % 4 / 5"), "(1 - (((2 * (x ** 3)) % 4) / 5))");
}

#[test]
fn constants_are_mapped() {
    let map = vec![("pi".to_string(), "Math.PI".to_string()), ("e".to_string(), "Math.E".to_string())];
    assert_eq!(transplie_to_js(&tree("2 * pi < e"), &map, &eps()), "((2 * Math.PI) < Math.E)");
}

#[test]
fn calls_use_runtime_names() {
    assert_eq!(js("exp_m1(x) + ln(y) + max(x, y)"), "((Math.expm1(x) + Math.log(y)) + Math.max(x, y))");
    assert_eq!(js("g(x)"), "g(x)");
}

#[test]
fn two_argument_log_by_change_of_base() {
    assert_eq!(js("log(x, 2)"), "(Math.log2(x) / Math.log2(2))");
}

#[test]
fn negation_and_literals() {
    let e = Expr::Neg(Box::new(Expr::Literal(Literal::new(-3, 4))));
    assert_eq!(transplie_to_js(&e, &Vec::new(), &eps()), "(-(-3 / 4))");
    assert_eq!(literal_to_string(&Literal::new(42, 1)), "42");
    assert_eq!(literal_to_string(&Literal::new(-42, 1)), "(-42)");
    assert_eq!(literal_to_string(&Literal::new(i64::MIN, 1)), "(-9223372036854775808)");
    assert_eq!(literal_to_string(&Literal::new(0, 1)), "0");
}

#[test]
fn source_text() {
    assert_eq!(ast_to_string(&tree("f(a, 2) ^ 2 = 1")), "((f(a, 2) ^ 2) = 1)");
}

#[test]
fn source_text_of_relations() {
    assert_eq!(ast_to_string(&tree("x <= y + 1")), "(x <= (y + 1))");
    assert_eq!(ast_to_string(&tree("sin(x) = 0.5")), "(sin(x) = 0.5)");
}

#[test]
fn registry_lookup() {
    assert_eq!(Func::lookup("atan2"), Some(Func::Atan2));
    assert_eq!(Func::lookup("nope"), None);
    assert_eq!(Func::Atan2.arity(), 2);
    assert_eq!(Func::ExpM1.script_name(), "Math.expm1");
    assert_eq!(Func::Ln1p.name(), "ln_1p");
}

#[test]
fn decimal_literals_are_written_in_decimal() {
    assert_eq!(literal_to_string(&Literal::new(15, 10)), "1.5");
    assert_eq!(literal_to_string(&Literal::new(-15, 10)), "(-1.5)");
    assert_eq!(literal_to_string(&Literal::new(1, 1000)), "0.001");
    assert_eq!(literal_to_string(&Literal::new(1250, 100)), "12.50");
    assert_eq!(literal_to_string(&Literal::new(-7, 1000)), "(-0.007)");
    assert_eq!(literal_to_string(&Literal::new(1, 3)), "(1 / 3)");
    assert_eq!(literal_to_string(&Literal::new(1, -10)), "(1 / -10)");
}

#[test]
fn source_text_with_negated_decimal() {
    let e = Expr::Eq(
        Box::new(Expr::Pow(Box::new(Expr::Id("x".to_string())), Box::new(Expr::Literal(Literal::new(2, 1))))),
        Box::new(Expr::Call(
            "max".to_string(),
            vec![Expr::Id("y".to_string()), Expr::Neg(Box::new(Expr::Literal(Literal::new(15, 10))))],
        )),
    );
    assert_eq!(ast_to_string(&e), "((x ^ 2) = max(y, (-1.5)))");
}
