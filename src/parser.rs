use vstd::prelude::*;
use vstd::string::*;
use crate::ast::{Expr, Literal, Term, lemma_terms_of_push, terms_of};
use crate::diagnostic::{Diagnostic, Level, report};
use crate::lexer::{Token, TokenKind, token_iter, tokens_of};

verus! {

/// Binding strengths of the binary operator tokens. A token without an
/// entry binds lower than any expression.
pub struct PrecedenceTable {
    pub entries: Vec<(TokenKind, i32)>,
}

/// The strength of `k` in `e` from position `j` on: that of its first entry.
pub open spec fn precedence_from(e: Seq<(TokenKind, i32)>, k: TokenKind, j: int) -> int
    decreases e.len() - j,
{
    if j < 0 || j >= e.len() {
        -1
    } else if e[j].0 == k {
        e[j].1 as int
    } else {
        precedence_from(e, k, j + 1)
    }
}

pub open spec fn precedence_of(e: Seq<(TokenKind, i32)>, k: TokenKind) -> int {
    precedence_from(e, k, 0)
}

impl PrecedenceTable {
    /// Every strength is non-negative and below `i32::MAX`.
    pub open spec fn wf(&self) -> bool {
        forall|i: int| 0 <= i < self.entries@.len() ==> 0 <= #[trigger] self.entries@[i].1 < i32::MAX
    }

    pub fn new() -> (r: Self)
        ensures
            r.wf(),
            r.entries@.len() == 0,
    {
        PrecedenceTable { entries: Vec::new() }
    }

    /// Gives `kind` the strength `precedence`, replacing what it had.
    pub fn insert(&mut self, kind: TokenKind, precedence: i32)
        requires
            old(self).wf(),
            0 <= precedence < i32::MAX,
        ensures
            final(self).wf(),
            final(self).entries@ == seq![(kind, precedence)] + old(self).entries@,
            precedence_of(final(self).entries@, kind) == precedence,
    {
        self.entries.insert(0, (kind, precedence));
        assert(self.entries@ =~= seq![(kind, precedence)] + old(self).entries@);
    }

    /// The strength of `kind`, or -1 where it has none.
    pub fn get(&self, kind: TokenKind) -> (r: i32)
        ensures
            r == precedence_of(self.entries@, kind),
    {
        let mut j: usize = 0;
        while j < self.entries.len()
            invariant
                j <= self.entries@.len(),
                precedence_from(self.entries@, kind, j as int) == precedence_of(self.entries@, kind),
            decreases self.entries@.len() - j,
        {
            if self.entries[j].0 == kind {
                return self.entries[j].1;
            }
            j = j + 1;
        }
        -1
    }
}

/// The table for every binary operator: relations bind weakest, then sums,
/// then products, then powers.
pub fn create_binary_op_precedence() -> (r: PrecedenceTable)
    ensures
        r.wf(),
        precedence_of(r.entries@, TokenKind::Eq) == 10,
        precedence_of(r.entries@, TokenKind::Lt) == 10,
        precedence_of(r.entries@, TokenKind::Gt) == 10,
        precedence_of(r.entries@, TokenKind::Plus) == 20,
        precedence_of(r.entries@, TokenKind::Minus) == 20,
        precedence_of(r.entries@, TokenKind::Star) == 40,
        precedence_of(r.entries@, TokenKind::Slash) == 40,
        precedence_of(r.entries@, TokenKind::Percent) == 40,
        precedence_of(r.entries@, TokenKind::Caret) == 60,
{
    let mut v: Vec<(TokenKind, i32)> = Vec::new();
    v.push((TokenKind::Eq, 10));
    v.push((TokenKind::Lt, 10));
    v.push((TokenKind::Gt, 10));
    v.push((TokenKind::Plus, 20));
    v.push((TokenKind::Minus, 20));
    v.push((TokenKind::Star, 40));
    v.push((TokenKind::Slash, 40));
    v.push((TokenKind::Percent, 40));
    v.push((TokenKind::Caret, 60));
    let r = PrecedenceTable { entries: v };
    proof {
        reveal_with_fuel(precedence_from, 10);
    }
    r
}

/// A token that the parser reads, with its text.
pub struct Lexeme {
    pub kind: TokenKind,
    pub text: String,
}

pub open spec fn lexeme_views(v: Seq<Lexeme>) -> Seq<(TokenKind, Seq<char>)> {
    v.map_values(|x: Lexeme| (x.kind, x.text@))
}

/// The tokens `toks` that start at offset `off` of `s` and are not
/// whitespace, each with its text; a token that runs past the end of `s`
/// ends the list.
pub open spec fn lexemes(s: Seq<char>, toks: Seq<Token>, off: int) -> Seq<(TokenKind, Seq<char>)>
    decreases toks.len(),
{
    if toks.len() == 0 || off < 0 || off + toks[0].len > s.len() {
        seq![]
    } else {
        let t = toks[0];
        let rest = lexemes(s, toks.drop_first(), off + t.len);
        if t.kind is Whitespace {
            rest
        } else {
            seq![(t.kind, s.subrange(off, off + t.len))] + rest
        }
    }
}

/// What went wrong in a parse.
#[derive(Debug, Clone, Copy, PartialEq, Eq, Structural)]
pub enum ParseError {
    UnexpectedToken,
    MissingCloseParen,
    BadArgumentList,
    LiteralTooLarge,
    TrailingInput,
}

pub open spec fn error_text(e: ParseError) -> Seq<char> {
    match e {
        ParseError::UnexpectedToken => "unknown token when expecting an expression"@,
        ParseError::MissingCloseParen => "expected ')'"@,
        ParseError::BadArgumentList => "Expected ')' or ',' in argument list"@,
        ParseError::LiteralTooLarge => "number literal is too large"@,
        ParseError::TrailingInput => "unexpected token after the expression"@,
    }
}

impl ParseError {
    /// The diagnostic message for this error.
    pub fn message(&self) -> (r: &'static str)
        ensures
            r@ == error_text(*self),
    {
        match self {
            ParseError::UnexpectedToken => "unknown token when expecting an expression",
            ParseError::MissingCloseParen => "expected ')'",
            ParseError::BadArgumentList => "Expected ')' or ',' in argument list",
            ParseError::LiteralTooLarge => "number literal is too large",
            ParseError::TrailingInput => "unexpected token after the expression",
        }
    }
}

/// The binary operators.
#[derive(Debug, Clone, Copy, PartialEq, Eq, Structural)]
pub enum BinOp {
    Eq,
    Ne,
    Lt,
    Gt,
    Le,
    Ge,
    Add,
    Sub,
    Mul,
    Div,
    Mod,
    Pow,
}

pub open spec fn kind_at(lx: Seq<(TokenKind, Seq<char>)>, p: int) -> Option<TokenKind> {
    if 0 <= p < lx.len() {
        Some(lx[p].0)
    } else {
        None
    }
}

/// The binary operator at `p`, with how many tokens it takes: `<=`, `>=`
/// and `<>` take two.
pub open spec fn op_at(lx: Seq<(TokenKind, Seq<char>)>, p: int) -> Option<(BinOp, int)> {
    match kind_at(lx, p) {
        Some(TokenKind::Eq) => Some((BinOp::Eq, 1)),
        Some(TokenKind::Lt) => if kind_at(lx, p + 1) == Some(TokenKind::Eq) {
            Some((BinOp::Le, 2))
        } else if kind_at(lx, p + 1) == Some(TokenKind::Gt) {
            Some((BinOp::Ne, 2))
        } else {
            Some((BinOp::Lt, 1))
        },
        Some(TokenKind::Gt) => if kind_at(lx, p + 1) == Some(TokenKind::Eq) {
            Some((BinOp::Ge, 2))
        } else {
            Some((BinOp::Gt, 1))
        },
        Some(TokenKind::Plus) => Some((BinOp::Add, 1)),
        Some(TokenKind::Minus) => Some((BinOp::Sub, 1)),
        Some(TokenKind::Star) => Some((BinOp::Mul, 1)),
        Some(TokenKind::Slash) => Some((BinOp::Div, 1)),
        Some(TokenKind::Percent) => Some((BinOp::Mod, 1)),
        Some(TokenKind::Caret) => Some((BinOp::Pow, 1)),
        _ => None,
    }
}

/// The strength of the operator at `p`: that of its first token in the
/// table, or -1 where no operator stands there.
pub open spec fn precedence_at(
    lx: Seq<(TokenKind, Seq<char>)>,
    pr: Seq<(TokenKind, i32)>,
    p: int,
) -> int {
    if op_at(lx, p) is Some {
        precedence_of(pr, lx[p].0)
    } else {
        -1
    }
}

pub open spec fn binary(op: BinOp, l: Term, r: Term) -> Term {
    let (l, r) = (Box::new(l), Box::new(r));
    match op {
        BinOp::Eq => Term::Eq(l, r),
        BinOp::Ne => Term::Ne(l, r),
        BinOp::Lt => Term::Lt(l, r),
        BinOp::Gt => Term::Gt(l, r),
        BinOp::Le => Term::Le(l, r),
        BinOp::Ge => Term::Ge(l, r),
        BinOp::Add => Term::Add(l, r),
        BinOp::Sub => Term::Sub(l, r),
        BinOp::Mul => Term::Mul(l, r),
        BinOp::Div => Term::Div(l, r),
        BinOp::Mod => Term::Mod(l, r),
        BinOp::Pow => Term::Pow(l, r),
    }
}

/// Reading a number left to right: its digits as an integer, ten to the
/// number of digits after the point, and whether a point was seen.
pub open spec fn scan_number(s: Seq<char>) -> (int, int, bool)
    decreases s.len(),
{
    if s.len() == 0 {
        (0, 1, false)
    } else {
        let (n, d, dot) = scan_number(s.drop_last());
        let c = s.last();
        if c == '.' {
            (n, d, true)
        } else {
            (n * 10 + (c as int - '0' as int), if dot { d * 10 } else { d }, dot)
        }
    }
}

pub open spec fn number_chars(s: Seq<char>) -> bool {
    forall|i: int| 0 <= i < s.len() ==> ('0' <= #[trigger] s[i] <= '9' || s[i] == '.')
}

/// The value of the number text `s` (digits, perhaps with a point), when
/// its digits and its denominator fit in an `i64`.
pub open spec fn number_value(s: Seq<char>) -> Option<Literal> {
    let (n, d, _) = scan_number(s);
    if number_chars(s) && n <= i64::MAX && d <= i64::MAX {
        Some(Literal { num: n as i64, den: d as i64 })
    } else {
        None
    }
}

/// The number part of a literal token's text: what stands before its suffix.
pub open spec fn number_part(text: Seq<char>, k: TokenKind) -> Seq<char> {
    match k {
        TokenKind::Literal(info) => if info.suffix_start <= text.len() {
            text.subrange(0, info.suffix_start as int)
        } else {
            text
        },
        _ => text,
    }
}

pub type Parsed = Result<(Term, int), ParseError>;

/// `primary := identifier | identifier '(' arguments ')' | number | '(' expression ')'`
pub open spec fn parse_primary(
    lx: Seq<(TokenKind, Seq<char>)>,
    pr: Seq<(TokenKind, i32)>,
    p: int,
) -> Parsed
    decreases lx.len() - p, 1int,
{
    if p < 0 || p >= lx.len() {
        Err(ParseError::UnexpectedToken)
    } else {
        match lx[p].0 {
            TokenKind::Id => if kind_at(lx, p + 1) == Some(TokenKind::OpenParen) {
                parse_arguments(lx, pr, p + 2, lx[p].1, seq![])
            } else {
                Ok((Term::Id(lx[p].1), p + 1))
            },
            TokenKind::Literal(_) => match number_value(number_part(lx[p].1, lx[p].0)) {
                Some(v) => Ok((Term::Lit(v), p + 1)),
                None => Err(ParseError::LiteralTooLarge),
            },
            TokenKind::OpenParen => match parse_expression(lx, pr, p + 1) {
                Err(e) => Err(e),
                Ok((t, q)) => if kind_at(lx, q) == Some(TokenKind::CloseParen) {
                    Ok((t, q + 1))
                } else {
                    Err(ParseError::MissingCloseParen)
                },
            },
            _ => Err(ParseError::UnexpectedToken),
        }
    }
}

/// The arguments of a call of `name`, from `p` on, after those in `acc`.
pub open spec fn parse_arguments(
    lx: Seq<(TokenKind, Seq<char>)>,
    pr: Seq<(TokenKind, i32)>,
    p: int,
    name: Seq<char>,
    acc: Seq<Term>,
) -> Parsed
    decreases lx.len() - p, 3int,
{
    if p < 0 || p > lx.len() {
        Err(ParseError::UnexpectedToken)
    } else if acc.len() == 0 && kind_at(lx, p) == Some(TokenKind::CloseParen) {
        Ok((Term::Call(name, acc), p + 1))
    } else {
        match parse_expression(lx, pr, p) {
            Err(e) => Err(e),
            Ok((t, q)) => if !(p < q <= lx.len()) {
                Err(ParseError::UnexpectedToken)
            } else if kind_at(lx, q) == Some(TokenKind::CloseParen) {
                Ok((Term::Call(name, acc.push(t)), q + 1))
            } else if kind_at(lx, q) == Some(TokenKind::Comma) {
                parse_arguments(lx, pr, q + 1, name, acc.push(t))
            } else {
                Err(ParseError::BadArgumentList)
            },
        }
    }
}

/// `expression := primary (binaryOperator primary)*`
pub open spec fn parse_expression(
    lx: Seq<(TokenKind, Seq<char>)>,
    pr: Seq<(TokenKind, i32)>,
    p: int,
) -> Parsed
    decreases lx.len() - p, 2int,
{
    if p < 0 || p > lx.len() {
        Err(ParseError::UnexpectedToken)
    } else {
        match parse_primary(lx, pr, p) {
            Err(e) => Err(e),
            Ok((t, q)) => if !(p < q <= lx.len()) {
                Err(ParseError::UnexpectedToken)
            } else {
                parse_binary_rhs(lx, pr, q, 0, t)
            },
        }
    }
}

/// Precedence climbing: operators from `p` on that bind at least as
/// strongly as `min` are folded onto `lhs`; where the operator after a
/// right operand binds more strongly, that operand absorbs it first.
pub open spec fn parse_binary_rhs(
    lx: Seq<(TokenKind, Seq<char>)>,
    pr: Seq<(TokenKind, i32)>,
    p: int,
    min: int,
    lhs: Term,
) -> Parsed
    decreases lx.len() - p, 3int,
{
    if p < 0 || p > lx.len() {
        Err(ParseError::UnexpectedToken)
    } else {
        let tp = precedence_at(lx, pr, p);
        if tp < min || op_at(lx, p) is None {
            Ok((lhs, p))
        } else {
            let (op, w) = op_at(lx, p)->Some_0;
            match parse_primary(lx, pr, p + w) {
                Err(e) => Err(e),
                Ok((rhs, q)) => if !(p + w < q <= lx.len()) {
                    Err(ParseError::UnexpectedToken)
                } else {
                    let next = if tp < precedence_at(lx, pr, q) {
                        parse_binary_rhs(lx, pr, q, tp + 1, rhs)
                    } else {
                        Ok((rhs, q))
                    };
                    match next {
                        Err(e) => Err(e),
                        Ok((r, q2)) => if !(q <= q2 <= lx.len()) {
                            Err(ParseError::UnexpectedToken)
                        } else {
                            parse_binary_rhs(lx, pr, q2, min, binary(op, lhs, r))
                        },
                    }
                },
            }
        }
    }
}

/// The tree of a whole token list, or the first error met.
pub open spec fn parse_all(lx: Seq<(TokenKind, Seq<char>)>, pr: Seq<(TokenKind, i32)>) -> Result<
    Term,
    ParseError,
> {
    match parse_expression(lx, pr, 0) {
        Err(e) => Err(e),
        Ok((t, q)) => if q == lx.len() {
            Ok(t)
        } else {
            Err(ParseError::TrailingInput)
        },
    }
}

/// Whether an executable parse result is the one that the spec gives.
pub open spec fn agrees(r: Result<(Expr, usize), ParseError>, s: Parsed) -> bool {
    match s {
        Ok((t, q)) => r matches Ok((e, q2)) && e@ == t && q2 == q,
        Err(e) => r == Err::<(Expr, usize), ParseError>(e),
    }
}

proof fn lemma_scan_number_monotone(s: Seq<char>, i: int)
    requires
        number_chars(s),
        0 <= i <= s.len(),
    ensures
        0 <= scan_number(s.subrange(0, i)).0 <= scan_number(s).0,
        1 <= scan_number(s.subrange(0, i)).1 <= scan_number(s).1,
    decreases s.len(),
{
    if i == s.len() {
        assert(s.subrange(0, i) =~= s);
        if s.len() > 0 {
            lemma_scan_number_monotone(s.drop_last(), i - 1);
            assert(s.drop_last().subrange(0, i - 1) =~= s.drop_last());
        }
    } else {
        let p = s.drop_last();
        assert(number_chars(p)) by {
            assert forall|k: int| 0 <= k < p.len() implies ('0' <= #[trigger] p[k] <= '9' || p[k]
                == '.') by {
                assert(p[k] == s[k]);
            }
        }
        lemma_scan_number_monotone(p, i);
        assert(p.subrange(0, i) =~= s.subrange(0, i));
        lemma_scan_number_monotone(p, p.len() as int);
        assert(p.subrange(0, p.len() as int) =~= p);
        assert(s[s.len() - 1] == s.last());
    }
}

/// The value of a literal token's number part (see `number_value`).
pub fn literal_value(text: &str, kind: TokenKind) -> (r: Option<Literal>)
    ensures
        r == number_value(number_part(text@, kind)),
{
    let len = text.unicode_len();
    let end = match kind {
        TokenKind::Literal(info) => if info.suffix_start <= len {
            info.suffix_start
        } else {
            len
        },
        _ => len,
    };
    let ghost s = number_part(text@, kind);
    assert(s =~= text@.subrange(0, end as int));
    let mut n: i64 = 0;
    let mut d: i64 = 1;
    let mut dot = false;
    let mut i: usize = 0;
    assert(s.subrange(0, 0) =~= Seq::<char>::empty());
    while i < end
        invariant
            s == text@.subrange(0, end as int),
            s == number_part(text@, kind),
            end <= text@.len(),
            i <= end,
            scan_number(s.subrange(0, i as int)) == (n as int, d as int, dot),
            number_chars(s.subrange(0, i as int)),
        decreases end - i,
    {
        let c = text.get_char(i);
        let ghost p = s.subrange(0, i + 1);
        assert(p.drop_last() =~= s.subrange(0, i as int));
        assert(p.last() == c);
        if c == '.' {
            dot = true;
        } else if '0' <= c && c <= '9' {
            let digit = ((c as u32) - ('0' as u32)) as i64;
            assert(scan_number(p) == (n * 10 + digit, if dot { d * 10 } else { d as int }, dot));
            let grown = match n.checked_mul(10) {
                Some(m) => m.checked_add(digit),
                None => None,
            };
            let scaled = if dot {
                d.checked_mul(10)
            } else {
                Some(d)
            };
            match (grown, scaled) {
                (Some(m), Some(e)) => {
                    n = m;
                    d = e;
                },
                _ => {
                    proof {
                        if number_chars(s) {
                            assert forall|k: int| 0 <= k < p.len() implies ('0' <= #[trigger] p[k]
                                <= '9' || p[k] == '.') by {
                                assert(p[k] == s[k]);
                            }
                            lemma_scan_number_monotone(s, i + 1);
                        }
                    }
                    return None;
                },
            }
        } else {
            assert(s[i as int] == c);
            assert(!number_chars(s));
            return None;
        }
        assert(number_chars(p)) by {
            assert forall|k: int| 0 <= k < p.len() implies ('0' <= #[trigger] p[k] <= '9' || p[k]
                == '.') by {
                if k < i {
                    assert(p[k] == s.subrange(0, i as int)[k]);
                }
            }
        }
        i = i + 1;
    }
    assert(s.subrange(0, i as int) =~= s);
    Some(Literal { num: n, den: d })
}

/// A parser's state: the tokens it reads, with their texts, how many of
/// them `next_token` has moved onto (the current one is the last of those;
/// none is current before the first move), and the table of operator
/// strengths.
pub struct ParserContext {
    pub items: Vec<Lexeme>,
    pub pos: usize,
    pub precedence: PrecedenceTable,
}

impl ParserContext {
    pub open spec fn lx(&self) -> Seq<(TokenKind, Seq<char>)> {
        lexeme_views(self.items@)
    }

    pub open spec fn pr(&self) -> Seq<(TokenKind, i32)> {
        self.precedence.entries@
    }

    /// A parser over the tokens `tokens` of `source` (whitespace is
    /// skipped), positioned before the first one.
    pub fn new(source: &str, tokens: &Vec<Token>, precedence: PrecedenceTable) -> (r: Self)
        ensures
            r.lx() == lexemes(source@, tokens@, 0),
            r.pos == 0,
            r.precedence == precedence,
    {
        let slen = source.unicode_len();
        let ghost s = source@;
        let ghost toks = tokens@;
        let mut items: Vec<Lexeme> = Vec::new();
        let mut off: usize = 0;
        let mut j: usize = 0;
        assert(toks.subrange(0, toks.len() as int) =~= toks);
        assert(lexeme_views(items@) =~= Seq::<(TokenKind, Seq<char>)>::empty());
        while j < tokens.len()
            invariant
                slen == s.len(),
                s == source@,
                toks == tokens@,
                j <= toks.len(),
                off <= slen,
                lexemes(s, toks, 0) == lexeme_views(items@) + lexemes(
                    s,
                    toks.subrange(j as int, toks.len() as int),
                    off as int,
                ),
            ensures
                lexemes(s, toks, 0) == lexeme_views(items@),
            decreases toks.len() - j,
        {
            let t = tokens[j];
            let ghost rest = toks.subrange(j as int, toks.len() as int);
            assert(rest[0] == t);
            assert(rest.drop_first() =~= toks.subrange(j + 1, toks.len() as int));
            if t.len > slen - off {
                assert(lexemes(s, rest, off as int) =~= Seq::<(TokenKind, Seq<char>)>::empty());
                assert(lexeme_views(items@) + Seq::<(TokenKind, Seq<char>)>::empty() =~= lexeme_views(
                    items@,
                ));
                break ;
            }
            if !matches!(t.kind, TokenKind::Whitespace) {
                let text = String::from_str(source.substring_char(off, off + t.len));
                let x = Lexeme { kind: t.kind, text };
                let ghost before = items@;
                items.push(x);
                assert(lexeme_views(items@) =~= lexeme_views(before).push((t.kind, text@)));
                assert(lexeme_views(items@) + lexemes(s, rest.drop_first(), off + t.len) =~= lexeme_views(
                    before,
                ) + lexemes(s, rest, off as int));
            }
            off = off + t.len;
            j = j + 1;
            proof {
                if j == toks.len() {
                    assert(toks.subrange(j as int, toks.len() as int) =~= Seq::<Token>::empty());
                    assert(lexeme_views(items@) + Seq::<(TokenKind, Seq<char>)>::empty()
                        =~= lexeme_views(items@));
                }
            }
        }
        ParserContext { items, pos: 0, precedence }
    }

    /// The kind of the current token: none before the first `next_token`
    /// and none once the tokens are used up.
    pub fn current_token(&self) -> (r: Option<TokenKind>)
        ensures
            r == kind_at(self.lx(), self.pos - 1),
    {
        if self.pos >= 1 && self.pos - 1 < self.items.len() {
            Some(self.items[self.pos - 1].kind)
        } else {
            None
        }
    }

    /// Moves on to the next token and returns its kind: the first call
    /// returns the first token, and a call after the last token `None`.
    pub fn next_token(&mut self) -> (r: Option<TokenKind>)
        ensures
            final(self).items == old(self).items,
            final(self).precedence == old(self).precedence,
            final(self).pos == if old(self).pos <= old(self).items@.len() && old(self).pos
                < usize::MAX {
                old(self).pos + 1
            } else {
                old(self).pos as int
            },
            r == kind_at(final(self).lx(), final(self).pos - 1),
    {
        if self.pos <= self.items.len() && self.pos < usize::MAX {
            self.pos = self.pos + 1;
        }
        self.current_token()
    }

    /// The strength of `kind` as a binary operator, or -1.
    pub fn get_token_precedence(&self, kind: TokenKind) -> (r: i32)
        ensures
            r == precedence_of(self.pr(), kind),
    {
        self.precedence.get(kind)
    }
}

fn kind_of(ctx: &ParserContext, p: usize) -> (r: Option<TokenKind>)
    ensures
        r == kind_at(ctx.lx(), p as int),
{
    if p < ctx.items.len() {
        Some(ctx.items[p].kind)
    } else {
        None
    }
}

fn operator_at(ctx: &ParserContext, p: usize) -> (r: Option<(BinOp, usize)>)
    ensures
        r matches Some((op, w)) ==> op_at(ctx.lx(), p as int) == Some((op, w as int)),
        r is None ==> op_at(ctx.lx(), p as int) is None,
{
    let len = ctx.items.len();
    assert(ctx.lx().len() == len);
    let next = if p < usize::MAX {
        kind_of(ctx, p + 1)
    } else {
        None
    };
    assert(p < usize::MAX ==> next == kind_at(ctx.lx(), p + 1));
    assert(p == usize::MAX ==> kind_at(ctx.lx(), p as int) is None);
    match kind_of(ctx, p) {
        Some(TokenKind::Eq) => Some((BinOp::Eq, 1)),
        Some(TokenKind::Lt) => match next {
            Some(TokenKind::Eq) => Some((BinOp::Le, 2)),
            Some(TokenKind::Gt) => Some((BinOp::Ne, 2)),
            _ => Some((BinOp::Lt, 1)),
        },
        Some(TokenKind::Gt) => match next {
            Some(TokenKind::Eq) => Some((BinOp::Ge, 2)),
            _ => Some((BinOp::Gt, 1)),
        },
        Some(TokenKind::Plus) => Some((BinOp::Add, 1)),
        Some(TokenKind::Minus) => Some((BinOp::Sub, 1)),
        Some(TokenKind::Star) => Some((BinOp::Mul, 1)),
        Some(TokenKind::Slash) => Some((BinOp::Div, 1)),
        Some(TokenKind::Percent) => Some((BinOp::Mod, 1)),
        Some(TokenKind::Caret) => Some((BinOp::Pow, 1)),
        _ => None,
    }
}

fn precedence_here(ctx: &ParserContext, p: usize) -> (r: i64)
    requires
        ctx.precedence.wf(),
    ensures
        r == precedence_at(ctx.lx(), ctx.pr(), p as int),
        r < i32::MAX,
{
    match operator_at(ctx, p) {
        Some(_) => {
            let k = ctx.items[p].kind;
            let v = ctx.precedence.get(k);
            proof {
                lemma_precedence_bound(ctx.pr(), k, 0);
            }
            v as i64
        },
        None => -1,
    }
}

proof fn lemma_precedence_bound(e: Seq<(TokenKind, i32)>, k: TokenKind, j: int)
    requires
        forall|i: int| 0 <= i < e.len() ==> 0 <= #[trigger] e[i].1 < i32::MAX,
        0 <= j,
    ensures
        precedence_from(e, k, j) < i32::MAX,
    decreases e.len() - j,
{
    if j < e.len() && e[j].0 != k {
        lemma_precedence_bound(e, k, j + 1);
    }
}

fn make_binary(op: BinOp, l: Expr, r: Expr) -> (e: Expr)
    ensures
        e@ == binary(op, l@, r@),
{
    let (l, r) = (Box::new(l), Box::new(r));
    match op {
        BinOp::Eq => Expr::Eq(l, r),
        BinOp::Ne => Expr::Ne(l, r),
        BinOp::Lt => Expr::Lt(l, r),
        BinOp::Gt => Expr::Gt(l, r),
        BinOp::Le => Expr::Le(l, r),
        BinOp::Ge => Expr::Ge(l, r),
        BinOp::Add => Expr::Add(l, r),
        BinOp::Sub => Expr::Sub(l, r),
        BinOp::Mul => Expr::Mul(l, r),
        BinOp::Div => Expr::Div(l, r),
        BinOp::Mod => Expr::Mod(l, r),
        BinOp::Pow => Expr::Pow(l, r),
    }
}

/// See `parse_primary`.
pub fn primary(ctx: &ParserContext, p: usize) -> (r: Result<(Expr, usize), ParseError>)
    requires
        ctx.precedence.wf(),
    ensures
        agrees(r, parse_primary(ctx.lx(), ctx.pr(), p as int)),
    decreases ctx.items@.len() - p, 1int,
{
    if p >= ctx.items.len() {
        return Err(ParseError::UnexpectedToken);
    }
    let item = &ctx.items[p];
    assert(ctx.lx()[p as int] == (item.kind, item.text@));
    match item.kind {
        TokenKind::Id => {
            if p + 1 < ctx.items.len() && matches!(ctx.items[p + 1].kind, TokenKind::OpenParen) {
                assert(ctx.lx()[p + 1] == (ctx.items@[p + 1].kind, ctx.items@[p + 1].text@));
                assert(terms_of(Seq::<Expr>::empty()) =~= Seq::<Term>::empty());
                arguments(ctx, p + 2, &item.text, Vec::new())
            } else {
                assert(p + 1 < ctx.items@.len() ==> ctx.lx()[p + 1] == (
                    ctx.items@[p + 1].kind,
                    ctx.items@[p + 1].text@,
                ));
                Ok((Expr::Id(item.text.clone()), p + 1))
            }
        },
        TokenKind::Literal(_) => match literal_value(item.text.as_str(), item.kind) {
            Some(v) => Ok((Expr::Literal(v), p + 1)),
            None => Err(ParseError::LiteralTooLarge),
        },
        TokenKind::OpenParen => match expression(ctx, p + 1) {
            Err(e) => Err(e),
            Ok((t, q)) => if q < ctx.items.len() && matches!(ctx.items[q].kind, TokenKind::CloseParen) {
                assert(ctx.lx()[q as int] == (ctx.items@[q as int].kind, ctx.items@[q as int].text@));
                Ok((t, q + 1))
            } else {
                assert(q < ctx.items@.len() ==> ctx.lx()[q as int] == (
                    ctx.items@[q as int].kind,
                    ctx.items@[q as int].text@,
                ));
                Err(ParseError::MissingCloseParen)
            },
        },
        _ => Err(ParseError::UnexpectedToken),
    }
}

/// See `parse_arguments`.
pub fn arguments(ctx: &ParserContext, p: usize, name: &String, acc: Vec<Expr>) -> (r: Result<
    (Expr, usize),
    ParseError,
>)
    requires
        ctx.precedence.wf(),
    ensures
        agrees(r, parse_arguments(ctx.lx(), ctx.pr(), p as int, name@, terms_of(acc@))),
    decreases ctx.items@.len() - p, 3int,
{
    let len = ctx.items.len();
    if p > len {
        return Err(ParseError::UnexpectedToken);
    }
    proof {
        crate::ast::lemma_terms_of_len(acc@);
    }
    if acc.len() == 0 && matches!(kind_of(ctx, p), Some(TokenKind::CloseParen)) {
        return Ok((Expr::Call(name.clone(), acc), p + 1));
    }
    match expression(ctx, p) {
        Err(e) => Err(e),
        Ok((t, q)) => {
            if !(p < q && q <= len) {
                return Err(ParseError::UnexpectedToken);
            }
            let k = kind_of(ctx, q);
            let mut acc = acc;
            let ghost before = acc@;
            proof {
                lemma_terms_of_push(before, t);
            }
            if matches!(k, Some(TokenKind::CloseParen)) {
                acc.push(t);
                Ok((Expr::Call(name.clone(), acc), q + 1))
            } else if matches!(k, Some(TokenKind::Comma)) {
                acc.push(t);
                arguments(ctx, q + 1, name, acc)
            } else {
                Err(ParseError::BadArgumentList)
            }
        },
    }
}

/// See `parse_expression`.
pub fn expression(ctx: &ParserContext, p: usize) -> (r: Result<(Expr, usize), ParseError>)
    requires
        ctx.precedence.wf(),
    ensures
        agrees(r, parse_expression(ctx.lx(), ctx.pr(), p as int)),
    decreases ctx.items@.len() - p, 2int,
{
    if p > ctx.items.len() {
        return Err(ParseError::UnexpectedToken);
    }
    match primary(ctx, p) {
        Err(e) => Err(e),
        Ok((t, q)) => if !(p < q && q <= ctx.items.len()) {
            Err(ParseError::UnexpectedToken)
        } else {
            binary_rhs(ctx, q, 0, t)
        },
    }
}

/// See `parse_binary_rhs`.
pub fn binary_rhs(ctx: &ParserContext, p: usize, min: i64, lhs: Expr) -> (r: Result<
    (Expr, usize),
    ParseError,
>)
    requires
        ctx.precedence.wf(),
    ensures
        agrees(r, parse_binary_rhs(ctx.lx(), ctx.pr(), p as int, min as int, lhs@)),
    decreases ctx.items@.len() - p, 3int,
{
    let len = ctx.items.len();
    if p > len {
        return Err(ParseError::UnexpectedToken);
    }
    let tp = precedence_here(ctx, p);
    let found = operator_at(ctx, p);
    if tp < min || found.is_none() {
        return Ok((lhs, p));
    }
    let (op, w) = found.unwrap();
    if w > len - p {
        proof {
            assert(parse_primary(ctx.lx(), ctx.pr(), p + w) == Err::<(Term, int), ParseError>(
                ParseError::UnexpectedToken,
            ));
        }
        return Err(ParseError::UnexpectedToken);
    }
    match primary(ctx, p + w) {
        Err(e) => Err(e),
        Ok((rhs, q)) => {
            if !(p + w < q && q <= len) {
                return Err(ParseError::UnexpectedToken);
            }
            let next = if tp < precedence_here(ctx, q) {
                binary_rhs(ctx, q, tp + 1, rhs)
            } else {
                Ok((rhs, q))
            };
            match next {
                Err(e) => Err(e),
                Ok((r, q2)) => if !(q <= q2 && q2 <= len) {
                    Err(ParseError::UnexpectedToken)
                } else {
                    binary_rhs(ctx, q2, min, make_binary(op, lhs, r))
                },
            }
        },
    }
}

/// Parses all of `ctx`'s tokens as one expression. On failure the error's
/// message is appended to `sink`.
pub fn parse_top_level_expression(ctx: &ParserContext, sink: &mut Vec<Diagnostic>) -> (r: Result<
    Expr,
    ParseError,
>)
    requires
        ctx.precedence.wf(),
    ensures
        match parse_all(ctx.lx(), ctx.pr()) {
            Ok(t) => r matches Ok(e) && e@ == t && final(sink)@ == old(sink)@,
            Err(err) => r == Err::<Expr, ParseError>(err) && report(final(sink)@) == report(
                old(sink)@,
            ).push((Level::Error, error_text(err))),
        },
{
    let result = match expression(ctx, 0) {
        Err(e) => Err(e),
        Ok((t, q)) => if q == ctx.items.len() {
            Ok(t)
        } else {
            Err(ParseError::TrailingInput)
        },
    };
    match result {
        Ok(t) => Ok(t),
        Err(e) => {
            let d = Diagnostic::new(Level::Error, String::from_str(e.message()));
            let ghost before = sink@;
            sink.push(d);
            assert(report(sink@) =~= report(before).push(d@));
            Err(e)
        },
    }
}

/// Lexes and parses `source` with the operator strengths `precedence`. On
/// failure the error's message is appended to `sink`.
pub fn parse(source: &str, precedence: PrecedenceTable, sink: &mut Vec<Diagnostic>) -> (r: Result<
    Expr,
    ParseError,
>)
    requires
        precedence.wf(),
    ensures
        match parse_all(lexemes(source@, tokens_of(source@), 0), precedence.entries@) {
            Ok(t) => r matches Ok(e) && e@ == t && final(sink)@ == old(sink)@,
            Err(err) => r == Err::<Expr, ParseError>(err) && report(final(sink)@) == report(
                old(sink)@,
            ).push((Level::Error, error_text(err))),
        },
{
    let tokens = token_iter(source);
    let ctx = ParserContext::new(source, &tokens, precedence);
    parse_top_level_expression(&ctx, sink)
}

/// Operands nest by strength: in `a op1 b op2 c`, `op2` takes `b` first
/// when it binds more strongly than `op1`; otherwise `op1` takes `b` and
/// `op2` applies to the result (equal strengths associate to the left).
pub proof fn lemma_precedence_nesting(
    lx: Seq<(TokenKind, Seq<char>)>,
    pr: Seq<(TokenKind, i32)>,
)
    requires
        lx.len() == 5,
        lx[0].0 == TokenKind::Id,
        lx[2].0 == TokenKind::Id,
        lx[4].0 == TokenKind::Id,
        op_at(lx, 1) is Some,
        op_at(lx, 3) is Some,
        precedence_at(lx, pr, 1) >= 0,
        precedence_at(lx, pr, 3) >= 0,
    ensures
        ({
            let (a, b, c) = (Term::Id(lx[0].1), Term::Id(lx[2].1), Term::Id(lx[4].1));
            let (o1, o2) = (op_at(lx, 1)->Some_0.0, op_at(lx, 3)->Some_0.0);
            parse_all(lx, pr) == Ok::<Term, ParseError>(
                if precedence_at(lx, pr, 1) < precedence_at(lx, pr, 3) {
                    binary(o1, a, binary(o2, b, c))
                } else {
                    binary(o2, binary(o1, a, b), c)
                },
            )
        }),
{
    let (a, b, c) = (Term::Id(lx[0].1), Term::Id(lx[2].1), Term::Id(lx[4].1));
    let (o1, o2) = (op_at(lx, 1)->Some_0.0, op_at(lx, 3)->Some_0.0);
    let (p1, p2) = (precedence_at(lx, pr, 1), precedence_at(lx, pr, 3));
    assert(op_at(lx, 1)->Some_0.1 == 1);
    assert(op_at(lx, 3)->Some_0.1 == 1);
    assert(op_at(lx, 5) is None);
    assert(precedence_at(lx, pr, 5) == -1);
    assert(parse_primary(lx, pr, 0) == Ok::<(Term, int), ParseError>((a, 1)));
    assert(parse_primary(lx, pr, 2) == Ok::<(Term, int), ParseError>((b, 3)));
    assert(parse_primary(lx, pr, 4) == Ok::<(Term, int), ParseError>((c, 5)));
    if p1 < p2 {
        let bc = binary(o2, b, c);
        assert(parse_binary_rhs(lx, pr, 5, p1 + 1, bc) == Ok::<(Term, int), ParseError>((bc, 5)));
        assert(parse_binary_rhs(lx, pr, 5, p1 + 1, c) == Ok::<(Term, int), ParseError>((c, 5)));
        assert(parse_binary_rhs(lx, pr, 3, p1 + 1, b) == Ok::<(Term, int), ParseError>((bc, 5)));
        let abc = binary(o1, a, bc);
        assert(parse_binary_rhs(lx, pr, 5, 0, abc) == Ok::<(Term, int), ParseError>((abc, 5)));
        assert(parse_binary_rhs(lx, pr, 1, 0, a) == Ok::<(Term, int), ParseError>((abc, 5)));
    } else {
        let ab = binary(o1, a, b);
        let abc = binary(o2, ab, c);
        assert(parse_binary_rhs(lx, pr, 5, 0, abc) == Ok::<(Term, int), ParseError>((abc, 5)));
        assert(parse_binary_rhs(lx, pr, 3, 0, ab) == Ok::<(Term, int), ParseError>((abc, 5)));
        assert(parse_binary_rhs(lx, pr, 1, 0, a) == Ok::<(Term, int), ParseError>((abc, 5)));
    }
    assert(parse_expression(lx, pr, 0) == Ok::<(Term, int), ParseError>(
        (if p1 < p2 { binary(o1, a, binary(o2, b, c)) } else { binary(o2, binary(o1, a, b), c) }, 5),
    ));
}

/// Parentheses group whatever the strengths: `(a op1 b) op2 c` applies
/// `op2` to the result of `op1`.
pub proof fn lemma_parentheses_group(lx: Seq<(TokenKind, Seq<char>)>, pr: Seq<(TokenKind, i32)>)
    requires
        lx.len() == 7,
        lx[0].0 == TokenKind::OpenParen,
        lx[1].0 == TokenKind::Id,
        lx[3].0 == TokenKind::Id,
        lx[4].0 == TokenKind::CloseParen,
        lx[6].0 == TokenKind::Id,
        op_at(lx, 2) is Some,
        op_at(lx, 5) is Some,
        precedence_at(lx, pr, 2) >= 0,
        precedence_at(lx, pr, 5) >= 0,
    ensures
        parse_all(lx, pr) == Ok::<Term, ParseError>(
            binary(
                op_at(lx, 5)->Some_0.0,
                binary(op_at(lx, 2)->Some_0.0, Term::Id(lx[1].1), Term::Id(lx[3].1)),
                Term::Id(lx[6].1),
            ),
        ),
{
    let (a, b, c) = (Term::Id(lx[1].1), Term::Id(lx[3].1), Term::Id(lx[6].1));
    let (o1, o2) = (op_at(lx, 2)->Some_0.0, op_at(lx, 5)->Some_0.0);
    let ab = binary(o1, a, b);
    let abc = binary(o2, ab, c);
    assert(op_at(lx, 2)->Some_0.1 == 1);
    assert(op_at(lx, 5)->Some_0.1 == 1);
    assert(op_at(lx, 4) is None);
    assert(op_at(lx, 7) is None);
    assert(parse_primary(lx, pr, 1) == Ok::<(Term, int), ParseError>((a, 2)));
    assert(parse_primary(lx, pr, 3) == Ok::<(Term, int), ParseError>((b, 4)));
    assert(parse_primary(lx, pr, 6) == Ok::<(Term, int), ParseError>((c, 7)));
    assert(parse_binary_rhs(lx, pr, 4, 0, ab) == Ok::<(Term, int), ParseError>((ab, 4)));
    assert(parse_binary_rhs(lx, pr, 2, 0, a) == Ok::<(Term, int), ParseError>((ab, 4)));
    assert(parse_expression(lx, pr, 1) == Ok::<(Term, int), ParseError>((ab, 4)));
    assert(parse_primary(lx, pr, 0) == Ok::<(Term, int), ParseError>((ab, 5)));
    assert(parse_binary_rhs(lx, pr, 7, 0, abc) == Ok::<(Term, int), ParseError>((abc, 7)));
    assert(parse_binary_rhs(lx, pr, 5, 0, ab) == Ok::<(Term, int), ParseError>((abc, 7)));
    assert(parse_expression(lx, pr, 0) == Ok::<(Term, int), ParseError>((abc, 7)));
}

} // verus!
