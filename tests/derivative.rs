use epp::ast::{Expr, Literal};
use epp::derivative::{differentiate_expr, mentions_variable};
use epp::parser::{create_binary_op_precedence, parse};
use epp::simplify::fold_expr;

fn tree(s: &str) -> Expr {
    let mut sink = Vec::new();
    parse(s, create_binary_op_precedence(), &mut sink).unwrap()
}

fn num(n: i64) -> Expr {
    Expr::Literal(Literal::new(n, 1))
}

fn id(s: &str) -> Expr {
    Expr::Id(s.to_string())
}

fn call(name: &str, a: Expr) -> Expr {
    Expr::Call(name.to_string(), vec![a])
}

fn b(e: Expr) -> Box<Expr> {
    Box::new(e)
}

fn d(s: &str) -> Result<Expr, String> {
    differentiate_expr(&tree(s))
}

#[test]
fn square_gives_two_x() {
    let r = d("x^2").unwrap();
    assert_eq!(fold_expr(&r), Expr::Mul(b(num(2)), b(id("x"))));
}

#[test]
fn sine_gives_cosine() {
    let r = d("sin(x)").unwrap();
    assert_eq!(r, Expr::Mul(b(call("cos", id("x"))), b(num(1))));
    assert_eq!(fold_expr(&r), call("cos", id("x")));
}

#[test]
fn relations_cannot_be_differentiated() {
    assert_eq!(d("x = 1"), Err("Cannot differentiate an equality expression".to_string()));
    assert_eq!(d("x < 1"), Err("Cannot differentiate a less than expression".to_string()));
    assert_eq!(d("x >= 1"), Err("Cannot differentiate a greater than or equal expression".to_string()));
}

#[test]
fn modulo_cannot_be_differentiated() {
    assert_eq!(d("x % 2"), Err("Cannot differentiate a modulo expression".to_string()));
}

#[test]
fn unknown_function_cannot_be_differentiated() {
    assert_eq!(d("floor(x)"), Err("Cannot differentiate function floor".to_string()));
    assert_eq!(d("g(x)"), Err("Cannot differentiate function g".to_string()));
    assert_eq!(d("sin(x, 1)"), Err("Wrong number of arguments for function sin".to_string()));
}

#[test]
fn constants_and_other_variables() {
    assert_eq!(d("5").unwrap(), num(0));
    assert_eq!(d("y").unwrap(), num(0));
    assert_eq!(d("x").unwrap(), num(1));
}

#[test]
fn sum_and_product_rules() {
    assert_eq!(fold_expr(&d("x + y").unwrap()), num(1));
    assert_eq!(
        d("x * y").unwrap(),
        Expr::Add(b(Expr::Mul(b(num(1)), b(id("y")))), b(Expr::Mul(b(id("x")), b(num(0)))))
    );
    assert_eq!(fold_expr(&d("x * y").unwrap()), id("y"));
}

#[test]
fn quotient_rule() {
    assert_eq!(
        fold_expr(&d("1 / x").unwrap()),
        Expr::Div(b(num(-1)), b(Expr::Pow(b(id("x")), b(num(2)))))
    );
}

#[test]
fn power_with_variable_exponent() {
    assert_eq!(
        fold_expr(&d("2 ^ x").unwrap()),
        Expr::Mul(b(Expr::Pow(b(num(2)), b(id("x")))), b(call("ln", num(2))))
    );
    assert_eq!(d("2 ^ y").unwrap(), num(0));
}

#[test]
fn power_with_variable_base_and_exponent() {
    let r = fold_expr(&d("x ^ x").unwrap());
    let expected = Expr::Mul(
        b(Expr::Add(
            b(call("ln", id("x"))),
            b(Expr::Mul(b(id("x")), b(Expr::Div(b(num(1)), b(id("x")))))),
        )),
        b(Expr::Pow(b(id("x")), b(id("x")))),
    );
    assert_eq!(r, expected);
}

#[test]
fn chain_rule_table() {
    assert_eq!(fold_expr(&d("exp(2*x)").unwrap()), Expr::Mul(b(call("exp", Expr::Mul(b(num(2)), b(id("x"))))), b(num(2))));
    assert_eq!(fold_expr(&d("ln(x)").unwrap()), Expr::Div(b(num(1)), b(id("x"))));
    assert_eq!(
        fold_expr(&d("sqrt(x)").unwrap()),
        Expr::Div(b(num(1)), b(Expr::Mul(b(num(2)), b(call("sqrt", id("x"))))))
    );
    assert_eq!(
        fold_expr(&d("cos(x)").unwrap()),
        Expr::Neg(b(call("sin", id("x"))))
    );
}

#[test]
fn two_argument_logarithm() {
    let r = d("log(x, 2)").unwrap();
    let ln = |e: Expr| call("ln", e);
    let expected = Expr::Div(
        b(Expr::Sub(
            b(Expr::Mul(b(Expr::Div(b(num(1)), b(id("x")))), b(ln(num(2))))),
            b(Expr::Mul(b(ln(id("x"))), b(Expr::Div(b(num(0)), b(num(2)))))),
        )),
        b(Expr::Pow(b(ln(num(2))), b(num(2)))),
    );
    assert_eq!(r, expected);
}

#[test]
fn absolute_value_correction_is_applied_last() {
    let r = d("abs(x) + 1").unwrap();
    let expected = Expr::Mul(
        b(Expr::Add(b(num(1)), b(num(0)))),
        b(Expr::Div(b(id("x")), b(call("abs", id("x"))))),
    );
    assert_eq!(r, expected);
}

#[test]
fn variable_occurrence() {
    assert!(mentions_variable(&tree("f(1, x) + 2")));
    assert!(!mentions_variable(&tree("f(1, y) + xx")));
}
