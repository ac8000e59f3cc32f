use epp::lexer::{token_iter, Token, TokenKind, TokenNumberLiteral};

fn kinds(s: &str) -> Vec<TokenKind> {
    token_iter(s).iter().map(|t| t.kind).collect()
}

#[test]
fn tokenize_twice_gives_same_tokens() {
    let s = "sin(x) + 12.5 * y_1 >= 3";
    assert_eq!(token_iter(s), token_iter(s));
}

#[test]
fn whitespace_runs_are_single_tokens() {
    let ts = token_iter("x \t\n y");
    assert_eq!(ts.len(), 3);
    assert_eq!(ts[0], Token::new(TokenKind::Id, 1));
    assert_eq!(ts[1], Token::new(TokenKind::Whitespace, 4));
    assert_eq!(ts[2], Token::new(TokenKind::Id, 1));
}

#[test]
fn punctuation_tokens() {
    assert_eq!(
        kinds("()., =<>+-*/%|&^"),
        vec![
            TokenKind::OpenParen,
            TokenKind::CloseParen,
            TokenKind::Dot,
            TokenKind::Comma,
            TokenKind::Whitespace,
            TokenKind::Eq,
            TokenKind::Lt,
            TokenKind::Gt,
            TokenKind::Plus,
            TokenKind::Minus,
            TokenKind::Star,
            TokenKind::Slash,
            TokenKind::Percent,
            TokenKind::Or,
            TokenKind::And,
            TokenKind::Caret,
        ]
    );
}

#[test]
fn unknown_characters_become_unknown_tokens() {
    assert_eq!(kinds("x # y"), vec![
        TokenKind::Id,
        TokenKind::Whitespace,
        TokenKind::Unknown,
        TokenKind::Whitespace,
        TokenKind::Id,
    ]);
}

#[test]
fn number_with_fraction_is_one_token() {
    let ts = token_iter("12.50");
    assert_eq!(ts, vec![Token::new(TokenKind::Literal(TokenNumberLiteral::new(5)), 5)]);
}

#[test]
fn leading_zero_takes_following_digits() {
    let ts = token_iter("007");
    assert_eq!(ts, vec![Token::new(TokenKind::Literal(TokenNumberLiteral::new(3)), 3)]);
}

#[test]
fn point_without_digit_is_not_taken() {
    assert_eq!(kinds("1.x"), vec![
        TokenKind::Literal(TokenNumberLiteral::new(1)),
        TokenKind::Dot,
        TokenKind::Id,
    ]);
}

#[test]
fn literal_suffix_is_recorded() {
    let ts = token_iter("3kg+1");
    assert_eq!(ts[0], Token::new(TokenKind::Literal(TokenNumberLiteral::new(1)), 3));
    assert_eq!(ts[0].kind, TokenKind::Literal(TokenNumberLiteral::new(1)));
    if let TokenKind::Literal(info) = ts[0].kind {
        assert_eq!(info.suffix_start(), 1);
    }
    assert_eq!(ts[1].kind, TokenKind::Plus);
}

#[test]
fn unicode_identifiers() {
    let ts = token_iter("\u{e9}t\u{e9} + \u{3c0}");
    assert_eq!(ts[0], Token::new(TokenKind::Id, 3));
    assert_eq!(ts[4], Token::new(TokenKind::Id, 1));
    assert_eq!(kinds("\u{2603}"), vec![TokenKind::Unknown]);
}

#[test]
fn unicode_whitespace() {
    assert_eq!(kinds("a\u{a0}\u{2003}b"), vec![TokenKind::Id, TokenKind::Whitespace, TokenKind::Id]);
}

#[test]
fn empty_text_has_no_tokens() {
    assert!(token_iter("").is_empty());
}

#[test]
fn token_lengths_cover_the_text() {
    let s = "max(x, 2.5e) <= y^2";
    let total: usize = token_iter(s).iter().map(|t| t.len).sum();
    assert_eq!(total, s.chars().count());
}

#[test]
fn token_kind_names() {
    assert_eq!(TokenKind::Caret.to_str(), "^");
    assert_eq!(TokenKind::Id.to_str(), "id");
    assert_eq!(TokenKind::Literal(TokenNumberLiteral::new(0)).to_str(), "literal");
    assert_eq!(TokenKind::Whitespace.to_str(), "whitespace");
}
