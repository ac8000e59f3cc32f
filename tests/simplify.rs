use epp::ast::{copy_tree, Expr, Literal};
use epp::parser::{create_binary_op_precedence, parse};
use epp::simplify::{add_literals, div_literals, fold_expr, mod_literals, mul_literals, neg_literal, pow_literals, sub_literals};

fn tree(s: &str) -> Expr {
    let mut sink = Vec::new();
    parse(s, create_binary_op_precedence(), &mut sink).unwrap()
}

fn num(n: i64) -> Expr {
    Expr::Literal(Literal::new(n, 1))
}

fn id(s: &str) -> Expr {
    Expr::Id(s.to_string())
}

fn b(e: Expr) -> Box<Expr> {
    Box::new(e)
}

#[test]
fn zero_plus_x_is_x() {
    assert_eq!(fold_expr(&tree("0 + x")), id("x"));
    assert_eq!(fold_expr(&tree("x + 0")), id("x"));
}

#[test]
fn product_of_literals_folds() {
    assert_eq!(fold_expr(&tree("2*3")), num(6));
}

#[test]
fn simplifying_twice_changes_nothing() {
    for s in ["0 + x", "2*3", "x^1 * 1 + 0", "(1 + 2) * x = sin(0 * y)", "x - 0", "2 ^ 0.5", "1 / 0", "0 - (0 - x)", "0 / 0", "1 ^ (0 - 2)"] {
        let once = fold_expr(&tree(s));
        let twice = fold_expr(&once);
        assert_eq!(once, twice, "{}", s);
    }
}

#[test]
fn identities() {
    assert_eq!(fold_expr(&tree("x * 0")), num(0));
    assert_eq!(fold_expr(&tree("0 * x")), num(0));
    assert_eq!(fold_expr(&tree("1 * x")), id("x"));
    assert_eq!(fold_expr(&tree("x * 1")), id("x"));
    assert_eq!(fold_expr(&tree("x ^ 0")), num(1));
    assert_eq!(fold_expr(&tree("x ^ 1")), id("x"));
    assert_eq!(fold_expr(&tree("0 ^ x")), num(0));
}

#[test]
fn subtraction_and_division_identities() {
    assert_eq!(fold_expr(&tree("x - 0")), id("x"));
    assert_eq!(fold_expr(&tree("0 - x")), Expr::Neg(b(id("x"))));
    assert_eq!(fold_expr(&tree("0 - 5")), num(-5));
    assert_eq!(fold_expr(&tree("0 / x")), num(0));
    assert_eq!(fold_expr(&tree("1 ^ x")), num(1));
    assert_eq!(fold_expr(&tree("x - y")), Expr::Sub(b(id("x")), b(id("y"))));
}

#[test]
fn double_negation_cancels() {
    let e = Expr::Neg(b(Expr::Neg(b(id("x")))));
    assert_eq!(fold_expr(&e), id("x"));
    assert_eq!(fold_expr(&Expr::Neg(b(num(5)))), num(-5));
}

#[test]
fn folding_is_exact() {
    assert_eq!(fold_expr(&tree("1 / 4")), Expr::Literal(Literal::new(1, 4)));
    assert_eq!(fold_expr(&tree("0.1 + 0.2")), Expr::Literal(Literal::new(3, 10)));
    assert_eq!(fold_expr(&tree("2 ^ 10")), num(1024));
    assert_eq!(fold_expr(&tree("7 % 3")), num(1));
    assert_eq!(fold_expr(&tree("5 - 7")), num(-2));
}

#[test]
fn relations_and_calls_keep_their_place() {
    assert_eq!(
        fold_expr(&tree("sin(1 + 1) < 2 * x")),
        Expr::Lt(b(Expr::Call("sin".to_string(), vec![num(2)])), b(Expr::Mul(b(num(2)), b(id("x")))))
    );
}

#[test]
fn unfoldable_literals_stay() {
    assert_eq!(fold_expr(&tree("1 / 0")), Expr::Div(b(num(1)), b(num(0))));
    assert_eq!(fold_expr(&tree("2 ^ 0.5")), Expr::Pow(b(num(2)), b(Expr::Literal(Literal::new(5, 10)))));
    assert_eq!(fold_expr(&tree("2 ^ 100")), Expr::Pow(b(num(2)), b(num(100))));
}

#[test]
fn literal_arithmetic() {
    let half = Literal::new(1, 2);
    let third = Literal::new(1, 3);
    assert_eq!(add_literals(&half, &third), Some(Literal::new(5, 6)));
    assert_eq!(add_literals(&half, &half), Some(Literal::new(2, 2)));
    assert_eq!(sub_literals(&half, &third), Some(Literal::new(1, 6)));
    assert_eq!(mul_literals(&half, &third), Some(Literal::new(1, 6)));
    assert_eq!(div_literals(&half, &Literal::new(-1, 3)), Some(Literal::new(-3, 2)));
    assert_eq!(div_literals(&half, &Literal::new(0, 1)), None);
    assert_eq!(mod_literals(&Literal::new(-7, 1), &Literal::new(3, 1)), Some(Literal::new(-1, 1)));
    assert_eq!(mod_literals(&Literal::new(7, 2), &Literal::new(1, 1)), Some(Literal::new(1, 2)));
    assert_eq!(pow_literals(&half, &Literal::new(-2, 1)), Some(Literal::new(4, 1)));
    assert_eq!(pow_literals(&Literal::new(-2, 1), &Literal::new(3, 1)), Some(Literal::new(-8, 1)));
    assert_eq!(neg_literal(&Literal::new(i64::MIN, 1)), None);
    assert_eq!(add_literals(&Literal::new(i64::MAX, 1), &Literal::new(1, 1)), None);
}

#[test]
fn copies_are_equal() {
    let e = tree("f(x, 1) + 2 = y");
    assert_eq!(copy_tree(&e), e);
}
