use epp::ast::{Expr, Literal};
use epp::diagnostic::{Diagnostic, Level};
use epp::lexer::{token_iter, TokenKind};
use epp::parser::{create_binary_op_precedence, parse, parse_top_level_expression, ParseError, ParserContext, PrecedenceTable};

fn num(n: i64) -> Expr {
    Expr::Literal(Literal::new(n, 1))
}

fn id(s: &str) -> Expr {
    Expr::Id(s.to_string())
}

fn b(e: Expr) -> Box<Expr> {
    Box::new(e)
}

fn parse_str(s: &str) -> Result<Expr, ParseError> {
    let mut sink = Vec::new();
    parse(s, create_binary_op_precedence(), &mut sink)
}

#[test]
fn product_binds_tighter_than_sum() {
    assert_eq!(parse_str("1+2*3").unwrap(), Expr::Add(b(num(1)), b(Expr::Mul(b(num(2)), b(num(3))))));
}

#[test]
fn parentheses_group() {
    assert_eq!(parse_str("(1+2)*3").unwrap(), Expr::Mul(b(Expr::Add(b(num(1)), b(num(2)))), b(num(3))));
}

#[test]
fn equal_strength_is_left_associative() {
    assert_eq!(parse_str("1 - 2 - 3").unwrap(), Expr::Sub(b(Expr::Sub(b(num(1)), b(num(2)))), b(num(3))));
}

#[test]
fn relations_nest_to_the_left() {
    assert_eq!(
        parse_str("x < y < z").unwrap(),
        Expr::Lt(b(Expr::Lt(b(id("x")), b(id("y")))), b(id("z")))
    );
}

#[test]
fn relation_binds_weakest() {
    assert_eq!(
        parse_str("x + 1 = 2").unwrap(),
        Expr::Eq(b(Expr::Add(b(id("x")), b(num(1)))), b(num(2)))
    );
}

#[test]
fn two_token_relations() {
    assert_eq!(parse_str("x <= 1").unwrap(), Expr::Le(b(id("x")), b(num(1))));
    assert_eq!(parse_str("x >= 1").unwrap(), Expr::Ge(b(id("x")), b(num(1))));
    assert_eq!(parse_str("x <> 1").unwrap(), Expr::Ne(b(id("x")), b(num(1))));
    assert_eq!(parse_str("x > 1").unwrap(), Expr::Gt(b(id("x")), b(num(1))));
}

#[test]
fn power_binds_tighter_than_product() {
    assert_eq!(
        parse_str("2*x^2").unwrap(),
        Expr::Mul(b(num(2)), b(Expr::Pow(b(id("x")), b(num(2)))))
    );
}

#[test]
fn calls_with_arguments() {
    assert_eq!(
        parse_str("log(x, 2) / f()").unwrap(),
        Expr::Div(
            b(Expr::Call("log".to_string(), vec![id("x"), num(2)])),
            b(Expr::Call("f".to_string(), vec![]))
        )
    );
}

#[test]
fn decimal_literals_are_exact() {
    assert_eq!(parse_str("12.50").unwrap(), Expr::Literal(Literal::new(1250, 100)));
    assert_eq!(parse_str("0.001").unwrap(), Expr::Literal(Literal::new(1, 1000)));
    assert_eq!(parse_str("3kg").unwrap(), num(3));
}

#[test]
fn missing_close_paren() {
    let mut sink = Vec::new();
    let r = parse("(1 + 2", create_binary_op_precedence(), &mut sink);
    assert_eq!(r, Err(ParseError::MissingCloseParen));
    assert_eq!(sink.len(), 1);
    assert_eq!(sink[0].level(), Level::Error);
    assert_eq!(sink[0].message(), "expected ')'");
}

#[test]
fn bad_argument_list() {
    let mut sink = Vec::new();
    let r = parse("f(1 2)", create_binary_op_precedence(), &mut sink);
    assert_eq!(r, Err(ParseError::BadArgumentList));
    assert_eq!(sink[0].message(), "Expected ')' or ',' in argument list");
}

#[test]
fn unexpected_token() {
    assert_eq!(parse_str(")"), Err(ParseError::UnexpectedToken));
    assert_eq!(parse_str("1 + "), Err(ParseError::UnexpectedToken));
    assert_eq!(parse_str(""), Err(ParseError::UnexpectedToken));
    assert_eq!(parse_str("# 1"), Err(ParseError::UnexpectedToken));
}

#[test]
fn trailing_input() {
    let mut sink: Vec<Diagnostic> = Vec::new();
    let r = parse("1 2", create_binary_op_precedence(), &mut sink);
    assert_eq!(r, Err(ParseError::TrailingInput));
    assert_eq!(sink[0].message(), "unexpected token after the expression");
    assert_eq!(parse_str("x | y"), Err(ParseError::TrailingInput));
}

#[test]
fn literal_too_large() {
    assert_eq!(parse_str("99999999999999999999"), Err(ParseError::LiteralTooLarge));
    assert_eq!(parse_str("9223372036854775807").unwrap(), num(i64::MAX));
}

#[test]
fn successful_parse_adds_no_diagnostic() {
    let mut sink = Vec::new();
    assert!(parse("x", create_binary_op_precedence(), &mut sink).is_ok());
    assert!(sink.is_empty());
}

#[test]
fn table_without_entries_reads_single_primary() {
    let mut sink = Vec::new();
    assert_eq!(parse("1 + 2", PrecedenceTable::new(), &mut sink), Err(ParseError::TrailingInput));
}

#[test]
fn custom_table_changes_nesting() {
    let mut t = PrecedenceTable::new();
    t.insert(TokenKind::Plus, 50);
    t.insert(TokenKind::Star, 10);
    let mut sink = Vec::new();
    assert_eq!(
        parse("1 + 2 * 3", t, &mut sink).unwrap(),
        Expr::Mul(b(Expr::Add(b(num(1)), b(num(2)))), b(num(3)))
    );
}

#[test]
fn precedence_table_lookup() {
    let t = create_binary_op_precedence();
    assert_eq!(t.get(TokenKind::Star), 40);
    assert_eq!(t.get(TokenKind::Plus), 20);
    assert_eq!(t.get(TokenKind::Lt), 10);
    assert_eq!(t.get(TokenKind::Caret), 60);
    assert_eq!(t.get(TokenKind::Comma), -1);
    let mut u = PrecedenceTable::new();
    u.insert(TokenKind::Plus, 5);
    u.insert(TokenKind::Plus, 7);
    assert_eq!(u.get(TokenKind::Plus), 7);
}

#[test]
fn context_walks_tokens_without_whitespace() {
    let src = "a + b";
    let tokens = token_iter(src);
    let mut ctx = ParserContext::new(src, &tokens, create_binary_op_precedence());
    assert_eq!(ctx.current_token(), None);
    assert_eq!(ctx.next_token(), Some(TokenKind::Id));
    assert_eq!(ctx.current_token(), Some(TokenKind::Id));
    assert_eq!(ctx.next_token(), Some(TokenKind::Plus));
    assert_eq!(ctx.current_token(), Some(TokenKind::Plus));
    assert_eq!(ctx.next_token(), Some(TokenKind::Id));
    assert_eq!(ctx.next_token(), None);
    assert_eq!(ctx.current_token(), None);
    assert_eq!(ctx.next_token(), None);
    assert_eq!(ctx.get_token_precedence(TokenKind::Plus), 20);
    assert_eq!(ctx.items[2].text, "b");
    let mut sink = Vec::new();
    assert_eq!(
        parse_top_level_expression(&ctx, &mut sink).unwrap(),
        Expr::Add(b(id("a")), b(id("b")))
    );
}
